//! Character-level text operations used by the key/value transform:
//! case folding, prefix tests, separator replacement and list splitting,
//! all specified over `Seq<char>` views.

use vstd::prelude::*;
use vstd::string::*;

verus! {

/// The Unicode lower-casing of a character sequence, as `str::to_lowercase`
/// computes it. The full mapping is not written out here; the one fact the
/// library states about it is its action on ASCII text (see `lowercase`).
pub uninterp spec fn lower_of(s: Seq<char>) -> Seq<char>;

/// Lower-casing of one ASCII character: the letters `A`..`Z` move down into
/// `a`..`z`, everything else is unchanged.
pub open spec fn ascii_lower_char(c: char) -> char {
    if 65 <= (c as u32) && (c as u32) <= 90 {
        ((c as u32) + 32) as char
    } else {
        c
    }
}

/// An ASCII character.
pub open spec fn is_ascii_char(c: char) -> bool {
    (c as u32) < 128
}

/// A lower-case ASCII letter.
pub open spec fn is_lower_ascii_letter(c: char) -> bool {
    97 <= (c as u32) && (c as u32) <= 122
}

/// Every character of the sequence is ASCII.
pub open spec fn all_ascii(s: Seq<char>) -> bool {
    forall|i: int| 0 <= i < s.len() ==> is_ascii_char(#[trigger] s[i])
}

/// The ASCII lower-casing of a whole sequence, character by character.
pub open spec fn ascii_lower(s: Seq<char>) -> Seq<char> {
    s.map_values(|c: char| ascii_lower_char(c))
}

/// Relies on `str::to_lowercase`: the result is a function of the characters
/// alone (the unconditional Unicode lower-case mapping), and on ASCII input
/// it lower-cases each ASCII letter in place, one character for one.
#[verifier::external_body]
pub fn lowercase(s: &str) -> (r: String)
    ensures
        r@ == lower_of(s@),
        all_ascii(s@) ==> r@ == ascii_lower(s@),
{
    s.to_lowercase()
}

/// Character-by-character string equality, by view.
pub fn str_eq(a: &str, b: &str) -> (r: bool)
    ensures
        r == (a@ == b@),
{
    let alen = a.unicode_len();
    let blen = b.unicode_len();
    if alen != blen {
        return false;
    }
    let mut i: usize = 0;
    while i < alen
        invariant
            alen == a@.len(),
            blen == b@.len(),
            alen == blen,
            i <= alen,
            forall|j: int| 0 <= j < i ==> a@[j] == b@[j],
        decreases alen - i,
    {
        if a.get_char(i) != b.get_char(i) {
            return false;
        }
        i = i + 1;
    }
    proof {
        assert(a@ =~= b@);
    }
    true
}

/// Case-insensitive equality of one character against a lower-case ASCII
/// letter.
pub fn eq_ci_char(c: char, low: char) -> (r: bool)
    requires
        97 <= (low as u32) && (low as u32) <= 122,
    ensures
        r == (ascii_lower_char(c) == low),
{
    let cu = c as u32;
    let lu = low as u32;
    if cu == lu {
        proof {
            vstd::utf8::char_u32_cast(c, cu);
            vstd::utf8::char_u32_cast(low, lu);
        }
        true
    } else if 65 <= cu && cu <= 90 && cu + 32 == lu {
        proof {
            vstd::utf8::char_u32_cast(low, lu);
        }
        true
    } else {
        proof {
            vstd::utf8::char_u32_cast(c, cu);
            vstd::utf8::char_u32_cast(low, lu);
            if 65 <= cu && cu <= 90 {
                let d = ((cu + 32) as u32) as char;
                assert(d as u32 == cu + 32);
            }
        }
        false
    }
}

/// Equality of `a` against an all-lower-case ASCII word `b`, ignoring the
/// ASCII case of `a`.
pub fn eq_ignore_ascii_case(a: &str, b: &str) -> (r: bool)
    requires
        forall|i: int| 0 <= i < b@.len() ==> is_lower_ascii_letter(#[trigger] b@[i]),
    ensures
        r == (ascii_lower(a@) == b@),
{
    let alen = a.unicode_len();
    let blen = b.unicode_len();
    if alen != blen {
        proof {
            assert(ascii_lower(a@).len() == a@.len());
        }
        return false;
    }
    let mut i: usize = 0;
    while i < alen
        invariant
            alen == a@.len(),
            blen == b@.len(),
            alen == blen,
            i <= alen,
            forall|i: int| 0 <= i < b@.len() ==> is_lower_ascii_letter(#[trigger] b@[i]),
            forall|j: int| 0 <= j < i ==> ascii_lower_char(#[trigger] a@[j]) == b@[j],
        decreases alen - i,
    {
        if !eq_ci_char(a.get_char(i), b.get_char(i)) {
            proof {
                assert(ascii_lower(a@)[i as int] == ascii_lower_char(a@[i as int]));
            }
            return false;
        }
        i = i + 1;
    }
    proof {
        assert(ascii_lower(a@) =~= b@);
    }
    true
}

/// The first position in `s[from..to]` holding `c1` or `c2`, if any.
pub fn find_first2(s: &str, from: usize, to: usize, c1: char, c2: char) -> (r: Option<usize>)
    requires
        from <= to <= s@.len(),
    ensures
        r matches Some(i) ==> from <= i < to && (s@[i as int] == c1 || s@[i as int] == c2)
            && (forall|j: int| from <= j < i ==> s@[j] != c1 && s@[j] != c2),
        r is None ==> forall|j: int| from <= j < to ==> s@[j] != c1 && s@[j] != c2,
{
    let mut i: usize = from;
    while i < to
        invariant
            from <= i <= to <= s@.len(),
            forall|j: int| from <= j < i ==> s@[j] != c1 && s@[j] != c2,
        decreases to - i,
    {
        let c = s.get_char(i);
        if c == c1 || c == c2 {
            return Some(i);
        }
        i = i + 1;
    }
    None
}

/// Whether `pre` is a prefix of `s`, by view.
pub fn str_starts_with(s: &str, pre: &str) -> (r: bool)
    ensures
        r == pre@.is_prefix_of(s@),
{
    let slen = s.unicode_len();
    let plen = pre.unicode_len();
    if plen > slen {
        return false;
    }
    let mut i: usize = 0;
    while i < plen
        invariant
            slen == s@.len(),
            plen == pre@.len(),
            plen <= slen,
            i <= plen,
            forall|j: int| 0 <= j < i ==> s@[j] == pre@[j],
        decreases plen - i,
    {
        if s.get_char(i) != pre.get_char(i) {
            return false;
        }
        i = i + 1;
    }
    proof {
        assert(pre@ =~= s@.subrange(0, plen as int));
    }
    true
}

/// `s` with every non-overlapping occurrence of `pat`, found left to right,
/// replaced by one dot, the path delimiter.
pub open spec fn replace_seq(s: Seq<char>, pat: Seq<char>) -> Seq<char>
    decreases s.len(),
{
    if s.len() == 0 {
        s
    } else if pat.len() >= 1 && pat.is_prefix_of(s) {
        seq!['.'] + replace_seq(s.skip(pat.len() as int), pat)
    } else {
        seq![s[0]] + replace_seq(s.skip(1), pat)
    }
}

/// `s` split on every non-overlapping occurrence of `sep`, found left to
/// right; an empty separator cuts around every character.
pub open spec fn split_seq(s: Seq<char>, sep: Seq<char>) -> Seq<Seq<char>>
    decreases s.len(),
{
    if sep.len() == 0 {
        seq![Seq::<char>::empty()] + s.map_values(|c: char| seq![c]) + seq![Seq::<char>::empty()]
    } else if s.len() == 0 {
        seq![s]
    } else if sep.is_prefix_of(s) {
        seq![Seq::<char>::empty()] + split_seq(s.skip(sep.len() as int), sep)
    } else {
        let rest = split_seq(s.skip(1), sep);
        seq![seq![s[0]] + rest[0]] + rest.skip(1)
    }
}

/// A split always yields at least one piece.
pub proof fn lemma_split_seq_len(s: Seq<char>, sep: Seq<char>)
    ensures
        split_seq(s, sep).len() >= 1,
    decreases s.len(),
{
    if sep.len() == 0 {
    } else if s.len() == 0 {
    } else if sep.is_prefix_of(s) {
        lemma_split_seq_len(s.skip(sep.len() as int), sep);
    } else {
        lemma_split_seq_len(s.skip(1), sep);
    }
}

/// The views of a sequence of strings.
pub open spec fn strings_view(v: Seq<String>) -> Seq<Seq<char>> {
    v.map_values(|x: String| x@)
}

/// The first piece extended on the left by `c`.
pub open spec fn prepend_first(c: Seq<char>, pieces: Seq<Seq<char>>) -> Seq<Seq<char>> {
    seq![c + pieces[0]] + pieces.skip(1)
}

/// Whether `pat` occurs in `s` at position `i`.
pub fn has_pat_at(s: &str, pat: &str, i: usize) -> (r: bool)
    requires
        i <= s@.len(),
    ensures
        r == pat@.is_prefix_of(s@.skip(i as int)),
{
    let slen = s.unicode_len();
    let plen = pat.unicode_len();
    if plen > slen - i {
        return false;
    }
    let sub = s.substring_char(i, i + plen);
    let r = str_eq(sub, pat);
    proof {
        assert(s@.skip(i as int).subrange(0, plen as int) =~= s@.subrange(i as int, i + plen));
        if r {
            assert(pat@ =~= s@.skip(i as int).subrange(0, pat@.len() as int));
        }
    }
    r
}

/// `s` with every occurrence of `pat` replaced by one dot.
pub fn replace_with_dot(s: &str, pat: &str) -> (r: String)
    requires
        pat@.len() >= 1,
    ensures
        r@ == replace_seq(s@, pat@),
{
    let slen = s.unicode_len();
    let plen = pat.unicode_len();
    let mut out = String::new();
    let mut i: usize = 0;
    proof {
        assert(s@.skip(0) =~= s@);
        assert(Seq::<char>::empty() + replace_seq(s@, pat@) =~= replace_seq(s@, pat@));
    }
    while i < slen
        invariant
            slen == s@.len(),
            plen == pat@.len(),
            plen >= 1,
            i <= slen,
            replace_seq(s@, pat@) == out@ + replace_seq(s@.skip(i as int), pat@),
        decreases slen - i,
    {
        let ghost pre = out@;
        if has_pat_at(s, pat, i) {
            out.append(".");
            proof {
                reveal_strlit(".");
                assert("."@ =~= seq!['.']);
                assert(s@.skip(i as int).skip(plen as int) =~= s@.skip(i + plen));
                assert((pre + "."@) + replace_seq(s@.skip(i + plen), pat@) =~= pre + (seq!['.']
                    + replace_seq(s@.skip(i + plen), pat@)));
            }
            i = i + plen;
        } else {
            out.append(s.substring_char(i, i + 1));
            proof {
                assert(s@.subrange(i as int, i + 1) =~= seq![s@[i as int]]);
                assert(s@.skip(i as int).skip(1) =~= s@.skip(i + 1));
                assert(s@.skip(i as int)[0] == s@[i as int]);
                assert((pre + seq![s@[i as int]]) + replace_seq(s@.skip(i + 1), pat@) =~= pre + (
                seq![s@[i as int]] + replace_seq(s@.skip(i + 1), pat@)));
            }
            i = i + 1;
        }
    }
    proof {
        assert(s@.skip(slen as int) =~= Seq::<char>::empty());
        assert(out@ + Seq::<char>::empty() =~= out@);
    }
    out
}

/// `s` split on `sep`, each piece its own string.
pub fn split_str(s: &str, sep: &str) -> (r: Vec<String>)
    ensures
        strings_view(r@) == split_seq(s@, sep@),
{
    let slen = s.unicode_len();
    let seplen = sep.unicode_len();
    let mut out: Vec<String> = Vec::new();
    if seplen == 0 {
        out.push(String::new());
        let mut i: usize = 0;
        while i < slen
            invariant
                i <= slen,
                slen == s@.len(),
                strings_view(out@) =~= seq![Seq::<char>::empty()] + s@.take(i as int).map_values(
                    |c: char| seq![c],
                ),
            decreases slen - i,
        {
            let ghost pre = out@;
            out.push(String::from_str(s.substring_char(i, i + 1)));
            proof {
                assert(s@.subrange(i as int, i + 1) =~= seq![s@[i as int]]);
                assert(strings_view(out@) =~= strings_view(pre).push(seq![s@[i as int]]));
                assert(s@.take(i + 1).map_values(|c: char| seq![c]) =~= s@.take(
                    i as int,
                ).map_values(|c: char| seq![c]).push(seq![s@[i as int]]));
                assert(strings_view(out@) =~= seq![Seq::<char>::empty()] + s@.take(
                    i + 1,
                ).map_values(|c: char| seq![c]));
            }
            i = i + 1;
        }
        out.push(String::new());
        proof {
            assert(s@.take(slen as int) =~= s@);
            assert(strings_view(out@) =~= split_seq(s@, sep@));
        }
        return out;
    }
    let mut cur = String::new();
    let mut i: usize = 0;
    proof {
        assert(s@.skip(0) =~= s@);
        let whole = split_seq(s@, sep@);
        lemma_split_seq_len(s@, sep@);
        assert(prepend_first(Seq::<char>::empty(), whole) =~= whole) by {
            assert(Seq::<char>::empty() + whole[0] =~= whole[0]);
            assert(seq![whole[0]] + whole.skip(1) =~= whole);
        }
        assert(strings_view(out@) =~= Seq::<Seq<char>>::empty());
        assert(Seq::<Seq<char>>::empty() + whole =~= whole);
    }
    while i < slen
        invariant
            i <= slen,
            slen == s@.len(),
            seplen == sep@.len(),
            seplen >= 1,
            split_seq(s@, sep@) == strings_view(out@) + prepend_first(
                cur@,
                split_seq(s@.skip(i as int), sep@),
            ),
        decreases slen - i,
    {
        let ghost pre_out = out@;
        let ghost pre_cur = cur@;
        if has_pat_at(s, sep, i) {
            out.push(cur);
            cur = String::new();
            proof {
                let x = split_seq(s@.skip(i + seplen), sep@);
                lemma_split_seq_len(s@.skip(i + seplen), sep@);
                assert(s@.skip(i as int).skip(seplen as int) =~= s@.skip(i + seplen));
                assert(split_seq(s@.skip(i as int), sep@) == seq![Seq::<char>::empty()] + x);
                assert(prepend_first(pre_cur, seq![Seq::<char>::empty()] + x) =~= seq![pre_cur]
                    + x) by {
                    assert(pre_cur + Seq::<char>::empty() =~= pre_cur);
                    assert((seq![Seq::<char>::empty()] + x).skip(1) =~= x);
                    assert((seq![Seq::<char>::empty()] + x)[0] =~= Seq::<char>::empty());
                }
                assert(prepend_first(Seq::<char>::empty(), x) =~= x) by {
                    assert(Seq::<char>::empty() + x[0] =~= x[0]);
                    assert(seq![x[0]] + x.skip(1) =~= x);
                }
                assert(strings_view(out@) =~= strings_view(pre_out).push(pre_cur));
                assert(strings_view(pre_out) + (seq![pre_cur] + x) =~= (strings_view(pre_out).push(
                    pre_cur,
                )) + x);
            }
            i = i + seplen;
        } else {
            cur.append(s.substring_char(i, i + 1));
            proof {
                let rest = split_seq(s@.skip(i + 1), sep@);
                lemma_split_seq_len(s@.skip(i + 1), sep@);
                assert(s@.subrange(i as int, i + 1) =~= seq![s@[i as int]]);
                assert(s@.skip(i as int).skip(1) =~= s@.skip(i + 1));
                assert(s@.skip(i as int)[0] == s@[i as int]);
                assert(split_seq(s@.skip(i as int), sep@) == seq![seq![s@[i as int]] + rest[0]]
                    + rest.skip(1));
                assert(prepend_first(pre_cur, seq![seq![s@[i as int]] + rest[0]] + rest.skip(1))
                    =~= prepend_first(cur@, rest)) by {
                    assert((seq![seq![s@[i as int]] + rest[0]] + rest.skip(1)).skip(1) =~= rest.skip(
                        1,
                    ));
                    assert((seq![seq![s@[i as int]] + rest[0]] + rest.skip(1))[0] == seq![s@[i as int]]
                        + rest[0]);
                    assert(pre_cur + (seq![s@[i as int]] + rest[0]) =~= (pre_cur + seq![s@[i as int]])
                        + rest[0]);
                    assert(cur@ =~= pre_cur + seq![s@[i as int]]);
                }
            }
            i = i + 1;
        }
    }
    out.push(cur);
    proof {
        let ghost last = split_seq(s@.skip(slen as int), sep@);
        assert(s@.skip(slen as int) =~= Seq::<char>::empty());
        assert(split_seq(Seq::<char>::empty(), sep@) == seq![Seq::<char>::empty()]);
        assert(prepend_first(cur@, seq![Seq::<char>::empty()]) =~= seq![cur@]) by {
            assert(cur@ + Seq::<char>::empty() =~= cur@);
            assert(seq![Seq::<char>::empty()].skip(1) =~= Seq::<Seq<char>>::empty());
            assert(seq![cur@ + Seq::<char>::empty()] + Seq::<Seq<char>>::empty() =~= seq![cur@
                + Seq::<char>::empty()]);
        }
        assert(strings_view(out@) =~= strings_view(out@.drop_last()).push(cur@));
        assert(strings_view(out@.drop_last()) + seq![cur@] =~= strings_view(out@));
    }
    out
}

} // verus!
