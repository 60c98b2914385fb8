//! Grammars of the typed-value literals that the transform recognises:
//! signed 64-bit integers and 64-bit floating-point numbers, as `str::parse`
//! accepts them, stated over `Seq<char>` views.

use vstd::prelude::*;

verus! {

/// A decimal digit `0`..`9`.
pub open spec fn is_digit(c: char) -> bool {
    48 <= (c as u32) && (c as u32) <= 57
}

/// The numeric value of a decimal digit.
pub open spec fn digit_val(c: char) -> int {
    (c as u32) - 48
}

/// Every character of the sequence is a decimal digit.
pub open spec fn all_digits(s: Seq<char>) -> bool {
    forall|i: int| 0 <= i < s.len() ==> is_digit(#[trigger] s[i])
}

/// The value of a sequence of decimal digits, most significant first.
pub open spec fn digits_val(s: Seq<char>) -> int
    decreases s.len(),
{
    if s.len() == 0 {
        0
    } else {
        digits_val(s.drop_last()) * 10 + digit_val(s.last())
    }
}

/// The sequence with one leading sign character removed, if there is one.
pub open spec fn sign_body(s: Seq<char>) -> Seq<char> {
    if s.len() > 0 && (s[0] == '+' || s[0] == '-') {
        s.drop_first()
    } else {
        s
    }
}

/// Whether the sequence carries a leading minus sign.
pub open spec fn has_minus_sign(s: Seq<char>) -> bool {
    s.len() > 0 && s[0] == '-'
}

/// The signed value written by an optional sign and a run of digits.
pub open spec fn signed_value(s: Seq<char>) -> int {
    if has_minus_sign(s) {
        -digits_val(sign_body(s))
    } else {
        digits_val(sign_body(s))
    }
}

/// The strings that `str::parse::<i64>` accepts: an optional sign, then one
/// or more decimal digits, writing a value that fits in a signed 64-bit
/// integer.
pub open spec fn is_i64_literal(s: Seq<char>) -> bool {
    let b = sign_body(s);
    &&& b.len() > 0
    &&& all_digits(b)
    &&& i64::MIN <= signed_value(s) <= i64::MAX
}

/// Relies on `str::parse::<i64>` (`i64::from_str`): it accepts exactly an
/// optional sign followed by one or more decimal digits whose value fits in
/// 64 bits, and returns that value.
#[verifier::external_body]
pub fn parse_i64(s: &str) -> (r: Option<i64>)
    ensures
        r is Some <==> is_i64_literal(s@),
        r matches Some(v) ==> v as int == signed_value(s@),
{
    s.parse::<i64>().ok()
}

/// A mantissa as the float grammar admits it: a run of digits, optionally
/// with one decimal point, with at least one digit on one side of the point.
pub open spec fn is_float_mantissa(m: Seq<char>) -> bool {
    ||| (m.len() > 0 && all_digits(m))
    ||| (exists|i: int|
        0 <= i < m.len() && #[trigger] m[i] == '.' && all_digits(m.take(i)) && all_digits(
            m.skip(i + 1),
        ) && (i > 0 || i + 1 < m.len()))
}

/// An exponent part: `e` or `E`, an optional sign, then one or more digits.
pub open spec fn is_float_exponent(e: Seq<char>) -> bool {
    let b = sign_body(e.drop_first());
    &&& e.len() > 0
    &&& (e[0] == 'e' || e[0] == 'E')
    &&& b.len() > 0
    &&& all_digits(b)
}

/// A number in the float grammar: a mantissa, optionally followed by an
/// exponent part.
pub open spec fn is_float_number(b: Seq<char>) -> bool {
    ||| is_float_mantissa(b)
    ||| (exists|i: int|
        0 <= i < b.len() && (#[trigger] b[i] == 'e' || #[trigger] b[i] == 'E')
            && is_float_mantissa(b.take(i)) && is_float_exponent(b.skip(i)))
}

/// One of the special float words, compared without regard to ASCII case.
pub open spec fn is_float_special(b: Seq<char>) -> bool {
    let low = crate::text::ascii_lower(b);
    low == "inf"@ || low == "infinity"@ || low == "nan"@
}

/// The strings that `str::parse::<f64>` accepts: an optional sign, then
/// `inf`, `infinity` or `nan` (case-insensitive) or a number with an
/// optional exponent.
pub open spec fn is_float_literal(s: Seq<char>) -> bool {
    let b = sign_body(s);
    is_float_special(b) || is_float_number(b)
}

/// Every character of a well-formed mantissa is a digit or the point.
proof fn lemma_mantissa_chars(m: Seq<char>, k: int)
    requires
        is_float_mantissa(m),
        0 <= k < m.len(),
    ensures
        is_digit(m[k]) || m[k] == '.',
{
    if m.len() > 0 && all_digits(m) {
    } else {
        let i = choose|i: int|
            0 <= i < m.len() && #[trigger] m[i] == '.' && all_digits(m.take(i)) && all_digits(
                m.skip(i + 1),
            ) && (i > 0 || i + 1 < m.len());
        if k < i {
            assert(m.take(i)[k] == m[k]);
        } else if k > i {
            assert(m.skip(i + 1)[k - i - 1] == m[k]);
        }
    }
}

/// Whether the character is a decimal digit.
fn char_is_digit(c: char) -> (r: bool)
    ensures
        r == is_digit(c),
{
    let u = c as u32;
    48 <= u && u <= 57
}

/// Whether `s[from..to]` consists of decimal digits only.
fn all_digits_in(s: &str, from: usize, to: usize) -> (r: bool)
    requires
        from <= to <= s@.len(),
    ensures
        r == all_digits(s@.subrange(from as int, to as int)),
{
    let ghost sub = s@.subrange(from as int, to as int);
    let mut i: usize = from;
    while i < to
        invariant
            from <= i <= to <= s@.len(),
            sub == s@.subrange(from as int, to as int),
            forall|j: int| from <= j < i ==> is_digit(#[trigger] s@[j]),
        decreases to - i,
    {
        if !char_is_digit(s.get_char(i)) {
            proof {
                assert(sub[i - from] == s@[i as int]);
            }
            return false;
        }
        i = i + 1;
    }
    proof {
        assert forall|k: int| 0 <= k < sub.len() implies is_digit(#[trigger] sub[k]) by {
            assert(sub[k] == s@[from + k]);
        }
    }
    true
}

/// Whether `s[from..to]` is a well-formed mantissa.
fn check_mantissa(s: &str, from: usize, to: usize) -> (r: bool)
    requires
        from <= to <= s@.len(),
    ensures
        r == is_float_mantissa(s@.subrange(from as int, to as int)),
{
    let ghost m = s@.subrange(from as int, to as int);
    match crate::text::find_first2(s, from, to, '.', '.') {
        Option::None => {
            let r = to > from && all_digits_in(s, from, to);
            proof {
                if !r {
                    assert forall|i: int|
                        0 <= i < m.len() implies !(#[trigger] m[i] == '.' && all_digits(
                        m.take(i),
                    ) && all_digits(m.skip(i + 1)) && (i > 0 || i + 1 < m.len())) by {
                        assert(m[i] == s@[from + i]);
                    }
                }
            }
            r
        },
        Option::Some(d) => {
            let r = all_digits_in(s, from, d) && all_digits_in(s, d + 1, to) && (d > from || d + 1
                < to);
            proof {
                let di = d - from;
                assert(m[di] == s@[d as int]);
                assert(s@.subrange(from as int, d as int) =~= m.take(di));
                assert(s@.subrange(d + 1, to as int) =~= m.skip(di + 1));
                assert(!all_digits(m));
                if r {
                    assert(m[di] == '.' && all_digits(m.take(di)) && all_digits(m.skip(di + 1)) && (
                    di > 0 || di + 1 < m.len()));
                } else {
                    assert forall|i: int|
                        0 <= i < m.len() implies !(#[trigger] m[i] == '.' && all_digits(
                        m.take(i),
                    ) && all_digits(m.skip(i + 1)) && (i > 0 || i + 1 < m.len())) by {
                        assert(m[i] == s@[from + i]);
                        if i < di {
                            assert(s@[from + i] != '.');
                        } else if i > di && m[i] == '.' {
                            assert(m.take(i)[di] == m[di]);
                            assert(!all_digits(m.take(i)));
                        }
                    }
                }
            }
            r
        },
    }
}

/// Whether `s[from..to]` is a well-formed exponent part.
fn check_exponent(s: &str, from: usize, to: usize) -> (r: bool)
    requires
        from <= to <= s@.len(),
    ensures
        r == is_float_exponent(s@.subrange(from as int, to as int)),
{
    let ghost e = s@.subrange(from as int, to as int);
    if to == from {
        return false;
    }
    let c0 = s.get_char(from);
    proof {
        assert(e[0] == s@[from as int]);
    }
    if !(c0 == 'e' || c0 == 'E') {
        return false;
    }
    let mut ds: usize = from + 1;
    if ds < to {
        let c1 = s.get_char(ds);
        if c1 == '+' || c1 == '-' {
            proof {
                assert(e.drop_first()[0] == s@[from + 1]);
            }
            ds = ds + 1;
        }
    }
    let r = ds < to && all_digits_in(s, ds, to);
    proof {
        assert(e.drop_first() =~= s@.subrange(from + 1, to as int));
        assert(sign_body(e.drop_first()) =~= s@.subrange(ds as int, to as int));
    }
    r
}

/// Decides membership in the grammar of `is_float_literal`: whether the
/// string would be accepted as a 64-bit floating-point literal.
pub fn parses_as_float(s: &str) -> (r: bool)
    ensures
        r == is_float_literal(s@),
{
    let slen = s.unicode_len();
    let mut start: usize = 0;
    if slen > 0 {
        let c0 = s.get_char(0);
        if c0 == '+' || c0 == '-' {
            start = 1;
        }
    }
    proof {
        assert(s@.subrange(start as int, slen as int) =~= sign_body(s@));
    }
    let body = s.substring_char(start, slen);
    proof {
        reveal_strlit("inf");
        reveal_strlit("infinity");
        reveal_strlit("nan");
    }
    if crate::text::eq_ignore_ascii_case(body, "inf") {
        return true;
    }
    if crate::text::eq_ignore_ascii_case(body, "infinity") {
        return true;
    }
    if crate::text::eq_ignore_ascii_case(body, "nan") {
        return true;
    }
    let blen = body.unicode_len();
    let ghost bv = body@;
    let r = match crate::text::find_first2(body, 0, blen, 'e', 'E') {
        Option::None => {
            let m = check_mantissa(body, 0, blen);
            proof {
                assert(bv.subrange(0, blen as int) =~= bv);
                assert forall|i: int|
                    0 <= i < bv.len() implies !(#[trigger] bv[i] == 'e' || #[trigger] bv[i]
                    == 'E') by {}
            }
            m
        },
        Option::Some(i) => {
            let r = check_mantissa(body, 0, i) && check_exponent(body, i, blen);
            proof {
                assert(bv.subrange(0, i as int) =~= bv.take(i as int));
                assert(bv.subrange(i as int, blen as int) =~= bv.skip(i as int));
                if r {
                    assert(0 <= i < bv.len() && (bv[i as int] == 'e' || bv[i as int] == 'E')
                        && is_float_mantissa(bv.take(i as int)) && is_float_exponent(
                        bv.skip(i as int),
                    ));
                } else {
                    if is_float_mantissa(bv) {
                        lemma_mantissa_chars(bv, i as int);
                    }
                    assert forall|j: int|
                        0 <= j < bv.len() && (#[trigger] bv[j] == 'e' || #[trigger] bv[j] == 'E')
                            && is_float_mantissa(bv.take(j)) implies !is_float_exponent(
                        bv.skip(j),
                    ) by {
                        if j > i {
                            lemma_mantissa_chars(bv.take(j), i as int);
                            assert(bv.take(j)[i as int] == bv[i as int]);
                            assert(false);
                        } else if j < i {
                            assert(bv[j] != 'e' && bv[j] != 'E');
                        }
                    }
                }
            }
            r
        },
    };
    proof {
        assert(bv == sign_body(s@));
    }
    r
}

} // verus!
