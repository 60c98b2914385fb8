//! Laws of the filter and of the transform, stated over the mathematical
//! views and proved once for every input.

use vstd::prelude::*;
use crate::literals::{is_i64_literal, signed_value, is_float_literal, is_digit};
use crate::source::{
    SafeEnvironmentView, collect_spec, collect_upto, environment_entry, filter_selection,
    inferred_value, map_insert, processed_key, raw_prefix_pattern,
};
use crate::text::{ascii_lower, ascii_lower_char, lower_of, split_seq};
use crate::value::{TypedEntryView, TypedValueView};

verus! {

/// For every value whose case-folding is a boolean literal, the inferred
/// kind is Boolean and carries the written truth value, whatever the key.
pub proof fn lemma_boolean_literal(v: SafeEnvironmentView, pkey: Seq<char>, value: Seq<char>)
    requires
        v.try_parsing,
        lower_of(value) == "true"@ || lower_of(value) == "false"@,
    ensures
        inferred_value(v, pkey, value) == TypedValueView::Boolean(lower_of(value) == "true"@),
{
    reveal_strlit("true");
    reveal_strlit("false");
    assert("true"@.len() == 4);
    assert("false"@.len() == 5);
}

/// The first character of an integer literal survives ASCII case-folding
/// unchanged, and is a digit or a sign.
proof fn lemma_integer_first_char(value: Seq<char>)
    requires
        is_i64_literal(value),
    ensures
        ascii_lower(value).len() == value.len(),
        ascii_lower(value)[0] == value[0],
        is_digit(value[0]) || value[0] == '+' || value[0] == '-',
{
    let b = crate::literals::sign_body(value);
    if !(value.len() > 0 && (value[0] == '+' || value[0] == '-')) {
        assert(b[0] == value[0]);
        assert(is_digit(b[0]));
    }
    assert(ascii_lower(value)[0] == ascii_lower_char(value[0]));
}

/// For every decimal integer string representable in 64 bits, the inferred
/// kind is Integer with the written value: the boolean rule cannot claim it
/// first, and the float rule, which would also accept it, is never reached.
/// The last hypothesis records for this value what `lowercase` states of
/// ASCII text: its case-folding is the ASCII one.
pub proof fn lemma_integer_literal(v: SafeEnvironmentView, pkey: Seq<char>, value: Seq<char>)
    requires
        v.try_parsing,
        is_i64_literal(value),
        lower_of(value) == ascii_lower(value),
    ensures
        inferred_value(v, pkey, value) == TypedValueView::Integer(signed_value(value) as i64),
{
    reveal_strlit("true");
    reveal_strlit("false");
    lemma_integer_first_char(value);
    if lower_of(value) == "true"@ {
        assert(value[0] == 't');
        assert(false);
    }
    if lower_of(value) == "false"@ {
        assert(value[0] == 'f');
        assert(false);
    }
}

/// A value that is no boolean, integer or float literal stays one verbatim
/// string whenever its key is not list-parsed — be it that the key-set
/// lacks the key, that no key-set is configured, or that no list separator
/// is configured. In particular a separator inside such a value does not
/// split it.
pub proof fn lemma_string_preserved(v: SafeEnvironmentView, pkey: Seq<char>, value: Seq<char>)
    requires
        v.try_parsing,
        lower_of(value) != "true"@,
        lower_of(value) != "false"@,
        !is_i64_literal(value),
        !is_float_literal(value),
        !(v.list_separator is Some && v.list_parse_keys is Some && v.list_parse_keys->0.contains(
            pkey,
        )),
    ensures
        inferred_value(v, pkey, value) == TypedValueView::Str(value),
{
}

/// For a key in the list-parse key-set, with a list separator configured, a
/// value that is no boolean, integer or float literal is split on the
/// separator into a list of plain strings.
pub proof fn lemma_list_parsed(v: SafeEnvironmentView, pkey: Seq<char>, value: Seq<char>)
    requires
        v.try_parsing,
        lower_of(value) != "true"@,
        lower_of(value) != "false"@,
        !is_i64_literal(value),
        !is_float_literal(value),
        v.list_separator is Some,
        v.list_parse_keys is Some,
        v.list_parse_keys->0.contains(pkey),
    ensures
        inferred_value(v, pkey, value) == TypedValueView::List(
            split_seq(value, v.list_separator->0),
        ),
{
}

/// With parsing disabled, every value keeps kind String, unchanged,
/// whatever it holds.
pub proof fn lemma_no_parsing(v: SafeEnvironmentView, pkey: Seq<char>, value: Seq<char>)
    requires
        !v.try_parsing,
    ensures
        inferred_value(v, pkey, value) == TypedValueView::Str(value),
{
}

/// Every key of the snapshot carries the prefix pattern: a raw key without
/// it is absent from the snapshot, and so contributes nothing to the result
/// mapping.
pub proof fn lemma_unprefixed_keys_absent<F: Fn(&str) -> bool>(
    raw: Seq<(Option<String>, Option<String>)>,
    prefix: Seq<char>,
    kept: Seq<(Seq<char>, Seq<char>)>,
    picked: Seq<int>,
    f: F,
    j: int,
)
    requires
        filter_selection(raw, prefix, raw.len() as int, kept, picked, f),
        0 <= j < kept.len(),
    ensures
        raw_prefix_pattern(prefix).is_prefix_of(kept[j].0),
{
    assert(0 <= picked[j] < raw.len());
}

/// Every snapshot entry descends from a raw entry whose key and value both
/// decoded as text: an entry that was not valid Unicode never appears.
pub proof fn lemma_undecodable_absent<F: Fn(&str) -> bool>(
    raw: Seq<(Option<String>, Option<String>)>,
    prefix: Seq<char>,
    kept: Seq<(Seq<char>, Seq<char>)>,
    picked: Seq<int>,
    f: F,
    j: int,
)
    requires
        filter_selection(raw, prefix, raw.len() as int, kept, picked, f),
        0 <= j < kept.len(),
    ensures
        exists|i: int|
            0 <= i < raw.len() && (#[trigger] raw[i]).0 is Some && raw[i].1 is Some
                && raw[i].0->0@ == kept[j].0 && raw[i].1->0@ == kept[j].1,
{
    let i = picked[j];
    assert(0 <= i < raw.len() && raw[i].0 is Some && raw[i].1 is Some && raw[i].0->0@ == kept[j].0
        && raw[i].1->0@ == kept[j].1);
}

/// Every pair of `map_insert(m, k, e)` is `(k, e)` or a pair of `m`.
proof fn lemma_map_insert_members(
    m: Seq<(Seq<char>, TypedEntryView)>,
    k: Seq<char>,
    e: TypedEntryView,
    j: int,
)
    requires
        0 <= j < map_insert(m, k, e).len(),
    ensures
        map_insert(m, k, e)[j] == (k, e) || m.contains(map_insert(m, k, e)[j]),
    decreases m.len(),
{
    if m.len() == 0 {
    } else if m[0].0 == k {
        if j > 0 {
            assert(map_insert(m, k, e)[j] == m[j]);
            assert(m.contains(m[j]));
        }
    } else {
        if j == 0 {
            assert(m.contains(m[0]));
        } else {
            lemma_map_insert_members(m.drop_first(), k, e, j - 1);
            let x = map_insert(m.drop_first(), k, e)[j - 1];
            if m.drop_first().contains(x) {
                let i0 = choose|i0: int|
                    0 <= i0 < m.drop_first().len() && m.drop_first()[i0] == x;
                assert(m[i0 + 1] == x);
                assert(m.contains(x));
            }
        }
    }
}

/// Every pair of the mapping built from the first `n` snapshot entries
/// descends from one of those entries.
proof fn lemma_collect_upto_members(v: SafeEnvironmentView, n: int, j: int)
    requires
        0 <= j < collect_upto(v, n).len(),
    ensures
        exists|i: int|
            0 <= i < n && collect_upto(v, n)[j] == ((
                processed_key(v, (#[trigger] v.filtered_env[i]).0),
                environment_entry(v, v.filtered_env[i].0, v.filtered_env[i].1),
            )),
    decreases n,
{
    let cur = collect_upto(v, n);
    let prev = collect_upto(v, n - 1);
    let e = v.filtered_env[n - 1];
    lemma_map_insert_members(prev, processed_key(v, e.0), environment_entry(v, e.0, e.1), j);
    if cur[j] == (processed_key(v, e.0), environment_entry(v, e.0, e.1)) {
        assert(0 <= n - 1 < n && cur[j] == ((
            processed_key(v, v.filtered_env[n - 1].0),
            environment_entry(v, v.filtered_env[n - 1].0, v.filtered_env[n - 1].1),
        )));
    } else {
        let j0 = choose|j0: int| 0 <= j0 < prev.len() && prev[j0] == cur[j];
        lemma_collect_upto_members(v, n - 1, j0);
    }
}

/// Every entry of the result mapping descends from one snapshot entry: its
/// key is that entry's processed key, its value the inferred value with the
/// environment provenance. Nothing the filter dropped, and nothing outside
/// the snapshot, contributes anything.
pub proof fn lemma_result_entries_from_snapshot(v: SafeEnvironmentView, j: int)
    requires
        0 <= j < collect_spec(v).len(),
    ensures
        exists|i: int|
            0 <= i < v.filtered_env.len() && collect_spec(v)[j] == ((
                processed_key(v, (#[trigger] v.filtered_env[i]).0),
                environment_entry(v, v.filtered_env[i].0, v.filtered_env[i].1),
            )),
{
    lemma_collect_upto_members(v, v.filtered_env.len() as int, j);
}

/// Transforming the same snapshot under the same rules twice gives the
/// same mapping, entry for entry: the result is a function of the source's
/// view alone.
pub proof fn lemma_collect_deterministic(
    v: SafeEnvironmentView,
    a: Seq<(Seq<char>, TypedEntryView)>,
    b: Seq<(Seq<char>, TypedEntryView)>,
)
    requires
        a == collect_spec(v),
        b == collect_spec(v),
    ensures
        a == b,
{
}

} // verus!
