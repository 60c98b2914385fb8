//! The environment source: a filtered snapshot of the process environment
//! plus the rules that turn raw entries into a typed configuration mapping.

use vstd::prelude::*;
use vstd::string::*;
use crate::literals::{is_i64_literal, signed_value, is_float_literal, parse_i64, parses_as_float};
use crate::text;
use crate::text::{lower_of, replace_seq, split_seq};
use crate::value::{SourceError, TypedEntry, TypedEntryView, TypedValue, TypedValueView};

verus! {

/// An environment source: the rules chosen by the caller and one immutable,
/// already-filtered snapshot of the process environment.
#[derive(Debug, Clone)]
pub struct SafeEnvironment {
    /// Prefix that selected the entries of the snapshot.
    prefix: String,
    /// Separator rewritten to the path delimiter in nested keys.
    separator: String,
    /// Separator between the prefix and the rest of a key.
    prefix_separator: String,
    /// Whether values are parsed into primitive kinds.
    try_parsing: bool,
    /// Separator of list elements.
    list_separator: Option<String>,
    /// Keys whose values are parsed as lists.
    list_parse_keys: Option<Vec<String>>,
    /// The snapshot: original-case keys and values, in snapshot order.
    filtered_env: Vec<(String, String)>,
}

/// The view of an environment source.
#[verifier::ext_equal]
pub ghost struct SafeEnvironmentView {
    pub prefix: Seq<char>,
    pub separator: Seq<char>,
    pub prefix_separator: Seq<char>,
    pub try_parsing: bool,
    pub list_separator: Option<Seq<char>>,
    pub list_parse_keys: Option<Seq<Seq<char>>>,
    pub filtered_env: Seq<(Seq<char>, Seq<char>)>,
}

/// The views of a sequence of key/value pairs.
pub open spec fn pairs_view(v: Seq<(String, String)>) -> Seq<(Seq<char>, Seq<char>)> {
    v.map_values(|p: (String, String)| (p.0@, p.1@))
}

impl View for SafeEnvironment {
    type V = SafeEnvironmentView;

    closed spec fn view(&self) -> SafeEnvironmentView {
        SafeEnvironmentView {
            prefix: self.prefix@,
            separator: self.separator@,
            prefix_separator: self.prefix_separator@,
            try_parsing: self.try_parsing,
            list_separator: match self.list_separator {
                Option::Some(s) => Option::Some(s@),
                Option::None => Option::None,
            },
            list_parse_keys: match self.list_parse_keys {
                Option::Some(ks) => Option::Some(text::strings_view(ks@)),
                Option::None => Option::None,
            },
            filtered_env: pairs_view(self.filtered_env@),
        }
    }
}

/// The pattern that a raw key must carry to enter the snapshot: the prefix
/// in its original case, then one underscore.
pub open spec fn raw_prefix_pattern(prefix: Seq<char>) -> Seq<char> {
    prefix + seq!['_']
}

/// Whether a raw entry can enter the snapshot before the predicate speaks:
/// key and value decoded, and the key carrying the prefix pattern.
pub open spec fn is_candidate(e: (Option<String>, Option<String>), prefix: Seq<char>) -> bool {
    &&& e.0 is Some
    &&& e.1 is Some
    &&& raw_prefix_pattern(prefix).is_prefix_of(e.0->0@)
}

/// The key suffix handed to the predicate: the raw key after the prefix
/// pattern.
pub open spec fn raw_suffix(e: (Option<String>, Option<String>), prefix: Seq<char>) -> Seq<char> {
    e.0->0@.skip(prefix.len() as int + 1)
}

/// How a snapshot relates to the raw entries it was filtered from. `picked`
/// lists, in increasing order, the positions below `n` whose entries were
/// kept: each is a candidate whose suffix the predicate accepted, and the
/// kept pairs are those entries' texts in order. Every candidate position
/// below `n` that was not picked had its suffix rejected by the predicate.
pub open spec fn filter_selection<F: Fn(&str) -> bool>(
    raw: Seq<(Option<String>, Option<String>)>,
    prefix: Seq<char>,
    n: int,
    kept: Seq<(Seq<char>, Seq<char>)>,
    picked: Seq<int>,
    f: F,
) -> bool {
    &&& picked.len() == kept.len()
    &&& (forall|a: int, b: int| 0 <= a < b < picked.len() ==> picked[a] < picked[b])
    &&& (forall|j: int| 0 <= j < picked.len() ==> 0 <= #[trigger] picked[j] < n)
    &&& (forall|j: int|
        0 <= j < picked.len() ==> {
            let e = raw[#[trigger] picked[j]];
            &&& is_candidate(e, prefix)
            &&& kept[j].0 == e.0->0@
            &&& kept[j].1 == e.1->0@
            &&& exists|s: &str| s@ == raw_suffix(e, prefix) && call_ensures(f, (s,), true)
        })
    &&& (forall|i: int|
        0 <= i < n && is_candidate(#[trigger] raw[i], prefix) && !picked.contains(i)
            ==> exists|s: &str| s@ == raw_suffix(raw[i], prefix) && call_ensures(f, (s,), false))
}

impl SafeEnvironment {
    /// Builds a source from a prefix, a predicate over key suffixes, and one
    /// snapshot of raw environment entries, each side of an entry either
    /// decoded text or marked undecodable. An entry is kept when its key
    /// decodes, carries the prefix pattern, its suffix satisfies the
    /// predicate, and its value decodes; everything else is dropped in
    /// silence. The remaining rules start at their defaults.
    pub fn with_prefix_and_filter<F: Fn(&str) -> bool>(
        prefix: &str,
        filter_fn: F,
        raw_env: Vec<(Option<String>, Option<String>)>,
    ) -> (r: Result<Self, SourceError>)
        requires
            forall|s: &str| #[trigger] call_requires(filter_fn, (s,)),
        ensures
            r is Ok,
            ({
                let se = r->Ok_0@;
                &&& se.prefix == prefix@
                &&& se.separator == "__"@
                &&& se.prefix_separator == "_"@
                &&& se.try_parsing == true
                &&& se.list_separator == Option::Some(","@)
                &&& se.list_parse_keys is None
                &&& se.filtered_env.len() <= raw_env@.len()
                &&& (forall|j: int|
                    0 <= j < se.filtered_env.len() ==> raw_prefix_pattern(prefix@).is_prefix_of(
                        (#[trigger] se.filtered_env[j]).0,
                    ))
                &&& exists|picked: Seq<int>|
                    filter_selection(
                        raw_env@,
                        prefix@,
                        raw_env@.len() as int,
                        se.filtered_env,
                        picked,
                        filter_fn,
                    )
            }),
    {
        let mut filtered_env: Vec<(String, String)> = Vec::new();
        let ghost mut picked: Seq<int> = Seq::empty();
        let pat = String::from_str(prefix).concat("_");
        proof {
            reveal_strlit("_");
            assert(pat@ =~= raw_prefix_pattern(prefix@));
            assert(pairs_view(filtered_env@) =~= Seq::<(Seq<char>, Seq<char>)>::empty());
        }
        let n = raw_env.len();
        let mut idx: usize = 0;
        while idx < n
            invariant
                n == raw_env@.len(),
                idx <= n,
                pat@ == raw_prefix_pattern(prefix@),
                filtered_env@.len() <= idx,
                forall|s: &str| #[trigger] call_requires(filter_fn, (s,)),
                filter_selection(
                    raw_env@,
                    prefix@,
                    idx as int,
                    pairs_view(filtered_env@),
                    picked,
                    filter_fn,
                ),
            decreases n - idx,
        {
            let kv = &raw_env[idx];
            if kv.0.is_some() && kv.1.is_some() {
                let k = kv.0.as_ref().unwrap();
                let v = kv.1.as_ref().unwrap();
                if text::str_starts_with(k.as_str(), pat.as_str()) {
                    let klen = k.as_str().unicode_len();
                    let plen = pat.as_str().unicode_len();
                    let suffix = k.as_str().substring_char(plen, klen);
                    proof {
                        assert(suffix@ =~= raw_suffix(raw_env@[idx as int], prefix@));
                    }
                    let keep = filter_fn(suffix);
                    if keep {
                        let ghost pre = filtered_env@;
                        let ghost old_picked = picked;
                        filtered_env.push((k.clone(), v.clone()));
                        proof {
                            picked = picked.push(idx as int);
                            assert(pairs_view(filtered_env@) =~= pairs_view(pre).push(
                                (k@, v@),
                            ));
                            assert(picked[picked.len() - 1] == idx as int);
                            assert forall|i: int|
                                0 <= i < idx + 1 && is_candidate(
                                    #[trigger] raw_env@[i],
                                    prefix@,
                                ) && !picked.contains(i) implies exists|s: &str|
                                s@ == raw_suffix(raw_env@[i], prefix@) && call_ensures(
                                    filter_fn,
                                    (s,),
                                    false,
                                ) by {
                                if old_picked.contains(i) {
                                    let j = choose|j: int|
                                        0 <= j < old_picked.len() && old_picked[j] == i;
                                    assert(picked[j] == i);
                                    assert(picked.contains(i));
                                }
                                assert(!old_picked.contains(i));
                                assert(i != idx);
                            }
                        }
                    } else {
                        proof {
                            assert forall|i: int|
                                0 <= i < idx + 1 && is_candidate(
                                    #[trigger] raw_env@[i],
                                    prefix@,
                                ) && !picked.contains(i) implies exists|s: &str|
                                s@ == raw_suffix(raw_env@[i], prefix@) && call_ensures(
                                    filter_fn,
                                    (s,),
                                    false,
                                ) by {
                                if i == idx {
                                    assert(suffix@ == raw_suffix(raw_env@[i], prefix@));
                                    assert(call_ensures(filter_fn, (suffix,), false));
                                }
                            }
                        }
                    }
                }
            }
            idx = idx + 1;
        }
        let se = SafeEnvironment {
            prefix: prefix.to_owned(),
            separator: String::from_str("__"),
            prefix_separator: String::from_str("_"),
            try_parsing: true,
            list_separator: Option::Some(String::from_str(",")),
            list_parse_keys: Option::None,
            filtered_env,
        };
        proof {
            assert(filter_selection(
                raw_env@,
                prefix@,
                raw_env@.len() as int,
                se@.filtered_env,
                picked,
                filter_fn,
            ));
            assert forall|j: int|
                0 <= j < se@.filtered_env.len() implies raw_prefix_pattern(
                prefix@,
            ).is_prefix_of((#[trigger] se@.filtered_env[j]).0) by {
                assert(0 <= picked[j] < raw_env@.len());
                assert(is_candidate(raw_env@[picked[j]], prefix@));
            }
        }
        Result::Ok(se)
    }
}

/// The lower-cased prefix followed by the prefix separator: what is
/// stripped from the front of a lower-cased key.
pub open spec fn lowered_prefix_pattern(v: SafeEnvironmentView) -> Seq<char> {
    lower_of(v.prefix) + v.prefix_separator
}

/// The key path made from a raw key: lower-cased, the prefix pattern
/// stripped when present, and every occurrence of the separator rewritten
/// to the path delimiter when the separator is not empty.
pub open spec fn processed_key(v: SafeEnvironmentView, key: Seq<char>) -> Seq<char> {
    let low = lower_of(key);
    let pat = lowered_prefix_pattern(v);
    let stripped = if pat.is_prefix_of(low) {
        low.skip(pat.len() as int)
    } else {
        low
    };
    if v.separator.len() > 0 {
        replace_seq(stripped, v.separator)
    } else {
        stripped
    }
}

/// The typed value inferred for a raw value under the rules of `v`, in
/// strict priority order: boolean, integer, float, list (only for a key in
/// the list-parse key-set, with a configured separator), then string.
pub open spec fn inferred_value(
    v: SafeEnvironmentView,
    pkey: Seq<char>,
    value: Seq<char>,
) -> TypedValueView {
    if !v.try_parsing {
        TypedValueView::Str(value)
    } else if lower_of(value) == "true"@ {
        TypedValueView::Boolean(true)
    } else if lower_of(value) == "false"@ {
        TypedValueView::Boolean(false)
    } else if is_i64_literal(value) {
        TypedValueView::Integer(signed_value(value) as i64)
    } else if is_float_literal(value) {
        TypedValueView::Float(value)
    } else if v.list_separator is Some && v.list_parse_keys is Some
        && v.list_parse_keys->0.contains(pkey) {
        TypedValueView::List(split_seq(value, v.list_separator->0))
    } else {
        TypedValueView::Str(value)
    }
}

/// The provenance tag carried by every produced entry.
pub open spec fn environment_origin() -> Seq<char> {
    "the environment"@
}

/// The full entry made from one raw key/value pair.
pub open spec fn environment_entry(
    v: SafeEnvironmentView,
    key: Seq<char>,
    value: Seq<char>,
) -> TypedEntryView {
    TypedEntryView {
        value: inferred_value(v, processed_key(v, key), value),
        origin: environment_origin(),
    }
}

/// Insertion into an association list: the first pair with the same key is
/// replaced in place; a new key goes to the end.
pub open spec fn map_insert(
    m: Seq<(Seq<char>, TypedEntryView)>,
    k: Seq<char>,
    e: TypedEntryView,
) -> Seq<(Seq<char>, TypedEntryView)>
    decreases m.len(),
{
    if m.len() == 0 {
        seq![(k, e)]
    } else if m[0].0 == k {
        seq![(k, e)] + m.drop_first()
    } else {
        seq![m[0]] + map_insert(m.drop_first(), k, e)
    }
}

/// The views of a sequence of produced entries.
pub open spec fn entries_view(m: Seq<(String, TypedEntry)>) -> Seq<(Seq<char>, TypedEntryView)> {
    m.map_values(|p: (String, TypedEntry)| (p.0@, p.1@))
}

/// The mapping produced from the first `n` snapshot entries.
pub open spec fn collect_upto(v: SafeEnvironmentView, n: int) -> Seq<(Seq<char>, TypedEntryView)>
    decreases n,
{
    if n <= 0 {
        Seq::empty()
    } else {
        let e = v.filtered_env[n - 1];
        map_insert(collect_upto(v, n - 1), processed_key(v, e.0), environment_entry(v, e.0, e.1))
    }
}

/// The mapping produced from the whole snapshot.
pub open spec fn collect_spec(v: SafeEnvironmentView) -> Seq<(Seq<char>, TypedEntryView)> {
    collect_upto(v, v.filtered_env.len() as int)
}

/// Replacing at the position of the first matching key, or appending when
/// no key matches, is what `map_insert` does.
proof fn lemma_map_insert_at(
    s: Seq<(Seq<char>, TypedEntryView)>,
    k: Seq<char>,
    e: TypedEntryView,
    i: int,
)
    requires
        0 <= i <= s.len(),
        forall|j: int| 0 <= j < i ==> (#[trigger] s[j]).0 != k,
        i < s.len() ==> s[i].0 == k,
    ensures
        i < s.len() ==> map_insert(s, k, e) == s.update(i, (k, e)),
        i == s.len() ==> map_insert(s, k, e) == s.push((k, e)),
    decreases s.len(),
{
    if s.len() == 0 {
        assert(map_insert(s, k, e) =~= s.push((k, e)));
    } else if i == 0 {
        if i < s.len() {
            assert(map_insert(s, k, e) =~= s.update(0, (k, e)));
        }
    } else {
        assert(s[0].0 != k);
        lemma_map_insert_at(s.drop_first(), k, e, i - 1);
        assert(forall|j: int|
            0 <= j < i - 1 ==> (#[trigger] s.drop_first()[j]).0 == s[j + 1].0);
        if i < s.len() {
            assert(seq![s[0]] + s.drop_first().update(i - 1, (k, e)) =~= s.update(i, (k, e)));
        } else {
            assert(seq![s[0]] + s.drop_first().push((k, e)) =~= s.push((k, e)));
        }
    }
}

/// Whether one of the keys equals `k`, by view.
fn contains_string(keys: &Vec<String>, k: &String) -> (r: bool)
    ensures
        r == text::strings_view(keys@).contains(k@),
{
    let n = keys.len();
    let mut i: usize = 0;
    while i < n
        invariant
            n == keys@.len(),
            i <= n,
            forall|j: int| 0 <= j < i ==> (#[trigger] keys@[j])@ != k@,
        decreases n - i,
    {
        if keys[i].eq(k) {
            proof {
                assert(text::strings_view(keys@)[i as int] == keys@[i as int]@);
            }
            return true;
        }
        i = i + 1;
    }
    proof {
        if text::strings_view(keys@).contains(k@) {
            let j = choose|j: int|
                0 <= j < text::strings_view(keys@).len() && text::strings_view(keys@)[j] == k@;
            assert(keys@[j]@ == k@);
        }
    }
    false
}

/// Inserts one entry into the result vector as `map_insert` says.
fn insert_entry(m: &mut Vec<(String, TypedEntry)>, k: String, e: TypedEntry)
    ensures
        entries_view(final(m)@) == map_insert(entries_view(old(m)@), k@, e@),
{
    let n = m.len();
    let mut i: usize = 0;
    while i < n
        invariant
            m@ == old(m)@,
            n == m@.len(),
            i <= n,
            forall|j: int| 0 <= j < i ==> (#[trigger] m@[j]).0@ != k@,
        decreases n - i,
    {
        if m[i].0.eq(&k) {
            proof {
                assert forall|j: int|
                    0 <= j < i implies (#[trigger] entries_view(old(m)@)[j]).0 != k@ by {}
                assert(entries_view(old(m)@)[i as int].0 == k@);
                lemma_map_insert_at(entries_view(old(m)@), k@, e@, i as int);
            }
            m.set(i, (k, e));
            proof {
                assert(entries_view(m@) =~= entries_view(old(m)@).update(i as int, (k@, e@)));
            }
            return;
        }
        i = i + 1;
    }
    proof {
        assert forall|j: int|
            0 <= j < n implies (#[trigger] entries_view(old(m)@)[j]).0 != k@ by {}
        lemma_map_insert_at(entries_view(old(m)@), k@, e@, n as int);
    }
    m.push((k, e));
    proof {
        assert(entries_view(m@) =~= entries_view(old(m)@).push((k@, e@)));
    }
}

impl SafeEnvironment {
    /// Sets the separator rewritten to the path delimiter in nested keys
    /// (default `__`).
    pub fn separator(self, separator: &str) -> (r: Self)
        ensures
            r@ == (SafeEnvironmentView { separator: separator@, ..self@ }),
    {
        let mut s = self;
        s.separator = separator.to_owned();
        s
    }

    /// Sets the separator between the prefix and the rest of a key
    /// (default `_`).
    pub fn prefix_separator(self, prefix_separator: &str) -> (r: Self)
        ensures
            r@ == (SafeEnvironmentView { prefix_separator: prefix_separator@, ..self@ }),
    {
        let mut s = self;
        s.prefix_separator = prefix_separator.to_owned();
        s
    }

    /// Enables or disables parsing of values into primitive kinds
    /// (default enabled).
    pub fn try_parsing(self, try_parsing: bool) -> (r: Self)
        ensures
            r@ == (SafeEnvironmentView { try_parsing, ..self@ }),
    {
        let mut s = self;
        s.try_parsing = try_parsing;
        s
    }

    /// Sets the separator of list elements (default `,`).
    pub fn list_separator(self, separator: &str) -> (r: Self)
        ensures
            r@ == (SafeEnvironmentView { list_separator: Option::Some(separator@), ..self@ }),
    {
        let mut s = self;
        s.list_separator = Option::Some(separator.to_owned());
        s
    }

    /// Adds one key to the list-parse key-set.
    pub fn with_list_parse_key(self, key: &str) -> (r: Self)
        ensures
            r@ == (SafeEnvironmentView {
                list_parse_keys: Option::Some(
                    match self@.list_parse_keys {
                        Option::Some(ks) => ks.push(key@),
                        Option::None => seq![key@],
                    },
                ),
                ..self@
            }),
    {
        let SafeEnvironment {
            prefix,
            separator,
            prefix_separator,
            try_parsing,
            list_separator,
            list_parse_keys,
            filtered_env,
        } = self;
        let ghost old_keys = list_parse_keys;
        let new_keys = match list_parse_keys {
            Option::Some(ks) => {
                let mut ks = ks;
                ks.push(key.to_owned());
                proof {
                    assert(text::strings_view(ks@) =~= text::strings_view(
                        old_keys->0@,
                    ).push(key@));
                }
                ks
            },
            Option::None => {
                let mut ks: Vec<String> = Vec::new();
                ks.push(key.to_owned());
                proof {
                    assert(text::strings_view(ks@) =~= seq![key@]);
                }
                ks
            },
        };
        SafeEnvironment {
            prefix,
            separator,
            prefix_separator,
            try_parsing,
            list_separator,
            list_parse_keys: Option::Some(new_keys),
            filtered_env,
        }
    }

    /// The key path of one raw key under the rules of this source.
    fn process_key(&self, key: &str) -> (r: String)
        ensures
            r@ == processed_key(self@, key@),
    {
        let low = text::lowercase(key);
        let pat = text::lowercase(self.prefix.as_str()).concat(self.prefix_separator.as_str());
        let stripped: String = if text::str_starts_with(low.as_str(), pat.as_str()) {
            let lowlen = low.as_str().unicode_len();
            let patlen = pat.as_str().unicode_len();
            let sub = low.as_str().substring_char(patlen, lowlen);
            proof {
                assert(sub@ =~= lower_of(key@).skip(pat@.len() as int));
            }
            String::from_str(sub)
        } else {
            low
        };
        if !self.separator.as_str().is_empty() {
            text::replace_with_dot(stripped.as_str(), self.separator.as_str())
        } else {
            stripped
        }
    }

    /// The typed value of one raw value under the rules of this source,
    /// given the already processed key.
    fn infer_value(&self, pkey: &String, value: &String) -> (r: TypedValue)
        ensures
            r@ == inferred_value(self@, pkey@, value@),
    {
        if !self.try_parsing {
            return TypedValue::Str(value.clone());
        }
        let low = text::lowercase(value.as_str());
        if low.eq(&String::from_str("true")) {
            return TypedValue::Boolean(true);
        }
        if low.eq(&String::from_str("false")) {
            return TypedValue::Boolean(false);
        }
        match parse_i64(value.as_str()) {
            Option::Some(n) => {
                return TypedValue::Integer(n);
            },
            Option::None => {},
        }
        if parses_as_float(value.as_str()) {
            return TypedValue::Float(value.clone());
        }
        if self.list_separator.is_some() && self.list_parse_keys.is_some() {
            let sep = self.list_separator.as_ref().unwrap();
            let keys = self.list_parse_keys.as_ref().unwrap();
            if contains_string(keys, pkey) {
                return TypedValue::List(text::split_str(value.as_str(), sep.as_str()));
            }
        }
        TypedValue::Str(value.clone())
    }

    /// Transforms the snapshot into the typed mapping: for each snapshot
    /// entry in order, the processed key and the inferred value are
    /// inserted, a later entry replacing an earlier one whose processed key
    /// collides. The input is not changed; the result is a function of the
    /// snapshot and the rules alone.
    pub fn collect(&self) -> (r: Result<Vec<(String, TypedEntry)>, SourceError>)
        ensures
            r is Ok,
            entries_view(r->Ok_0@) == collect_spec(self@),
    {
        let mut m: Vec<(String, TypedEntry)> = Vec::new();
        let uri = String::from_str("the environment");
        proof {
            reveal_strlit("the environment");
        }
        let n = self.filtered_env.len();
        let mut i: usize = 0;
        proof {
            assert(entries_view(m@) =~= collect_upto(self@, 0));
            assert(self@.filtered_env.len() == self.filtered_env@.len());
        }
        while i < n
            invariant
                n == self.filtered_env@.len(),
                self@.filtered_env.len() == n,
                i <= n,
                uri@ == environment_origin(),
                entries_view(m@) == collect_upto(self@, i as int),
            decreases n - i,
        {
            let kv = &self.filtered_env[i];
            let pkey = self.process_key(kv.0.as_str());
            let tv = self.infer_value(&pkey, &kv.1);
            let entry = TypedEntry { value: tv, origin: uri.clone() };
            proof {
                assert(self@.filtered_env[i as int] == (kv.0@, kv.1@));
                assert(entry@ == environment_entry(self@, kv.0@, kv.1@));
            }
            insert_entry(&mut m, pkey, entry);
            i = i + 1;
        }
        Result::Ok(m)
    }
}

} // verus!
