use safe_environment::source::SafeEnvironment;
use safe_environment::value::{TypedEntry, TypedValue};

fn entry(k: &str, v: &str) -> (Option<String>, Option<String>) {
    (Some(k.to_owned()), Some(v.to_owned()))
}

fn build(prefix: &str, raw: Vec<(Option<String>, Option<String>)>) -> SafeEnvironment {
    SafeEnvironment::with_prefix_and_filter(prefix, |_s: &str| true, raw).unwrap()
}

fn lookup<'a>(m: &'a [(String, TypedEntry)], k: &str) -> Option<&'a TypedValue> {
    m.iter().find(|p| p.0 == k).map(|p| &p.1.value)
}

#[test]
fn boolean_literals_case_insensitive() {
    let se = build(
        "PFX",
        vec![entry("PFX_A", "TRUE"), entry("PFX_B", "False"), entry("PFX_C", "true")],
    );
    let m = se.collect().unwrap();
    assert_eq!(lookup(&m, "a"), Some(&TypedValue::Boolean(true)));
    assert_eq!(lookup(&m, "b"), Some(&TypedValue::Boolean(false)));
    assert_eq!(lookup(&m, "c"), Some(&TypedValue::Boolean(true)));
}

#[test]
fn integers_before_floats() {
    let se = build(
        "PFX",
        vec![
            entry("PFX_N", "42"),
            entry("PFX_NEG", "-7"),
            entry("PFX_POS", "+5"),
            entry("PFX_MAX", "9223372036854775807"),
            entry("PFX_MIN", "-9223372036854775808"),
        ],
    );
    let m = se.collect().unwrap();
    assert_eq!(lookup(&m, "n"), Some(&TypedValue::Integer(42)));
    assert_eq!(lookup(&m, "neg"), Some(&TypedValue::Integer(-7)));
    assert_eq!(lookup(&m, "pos"), Some(&TypedValue::Integer(5)));
    assert_eq!(lookup(&m, "max"), Some(&TypedValue::Integer(i64::MAX)));
    assert_eq!(lookup(&m, "min"), Some(&TypedValue::Integer(i64::MIN)));
}

#[test]
fn floats_when_integers_fail() {
    let se = build(
        "PFX",
        vec![
            entry("PFX_A", "42.5"),
            entry("PFX_B", "1e3"),
            entry("PFX_C", "9223372036854775808"),
            entry("PFX_D", "-Infinity"),
            entry("PFX_E", "nAn"),
            entry("PFX_F", ".5"),
            entry("PFX_G", "+1.25E-3"),
        ],
    );
    let m = se.collect().unwrap();
    assert_eq!(lookup(&m, "a"), Some(&TypedValue::Float("42.5".to_owned())));
    assert_eq!(lookup(&m, "b"), Some(&TypedValue::Float("1e3".to_owned())));
    assert_eq!(
        lookup(&m, "c"),
        Some(&TypedValue::Float("9223372036854775808".to_owned()))
    );
    assert_eq!(lookup(&m, "d"), Some(&TypedValue::Float("-Infinity".to_owned())));
    assert_eq!(lookup(&m, "e"), Some(&TypedValue::Float("nAn".to_owned())));
    assert_eq!(lookup(&m, "f"), Some(&TypedValue::Float(".5".to_owned())));
    assert_eq!(lookup(&m, "g"), Some(&TypedValue::Float("+1.25E-3".to_owned())));
}

#[test]
fn near_floats_stay_strings() {
    let se = build(
        "PFX",
        vec![
            entry("PFX_A", "1e"),
            entry("PFX_B", "."),
            entry("PFX_C", "--5"),
            entry("PFX_D", ""),
            entry("PFX_E", "1.2.3"),
            entry("PFX_F", "infx"),
        ],
    );
    let m = se.collect().unwrap();
    assert_eq!(lookup(&m, "a"), Some(&TypedValue::Str("1e".to_owned())));
    assert_eq!(lookup(&m, "b"), Some(&TypedValue::Str(".".to_owned())));
    assert_eq!(lookup(&m, "c"), Some(&TypedValue::Str("--5".to_owned())));
    assert_eq!(lookup(&m, "d"), Some(&TypedValue::Str(String::new())));
    assert_eq!(lookup(&m, "e"), Some(&TypedValue::Str("1.2.3".to_owned())));
    assert_eq!(lookup(&m, "f"), Some(&TypedValue::Str("infx".to_owned())));
}

#[test]
fn comma_value_not_split_for_unlisted_key() {
    let se = build("PFX", vec![entry("PFX_PLAIN", "a,b,c")]).with_list_parse_key("other");
    let m = se.collect().unwrap();
    assert_eq!(lookup(&m, "plain"), Some(&TypedValue::Str("a,b,c".to_owned())));
}

#[test]
fn listed_key_splits_on_default_separator() {
    let se = build("PFX", vec![entry("PFX_LIST", "a,b,c")]).with_list_parse_key("list");
    let m = se.collect().unwrap();
    assert_eq!(
        lookup(&m, "list"),
        Some(&TypedValue::List(vec!["a".to_owned(), "b".to_owned(), "c".to_owned()]))
    );
}

#[test]
fn listed_key_keeps_empty_pieces() {
    let se = build("PFX", vec![entry("PFX_L", "a,,b"), entry("PFX_M", ",")])
        .with_list_parse_key("l")
        .with_list_parse_key("m");
    let m = se.collect().unwrap();
    assert_eq!(
        lookup(&m, "l"),
        Some(&TypedValue::List(vec!["a".to_owned(), String::new(), "b".to_owned()]))
    );
    assert_eq!(
        lookup(&m, "m"),
        Some(&TypedValue::List(vec![String::new(), String::new()]))
    );
}

#[test]
fn custom_list_separator() {
    let se = build("PFX", vec![entry("PFX_L", "x;y")])
        .list_separator(";")
        .with_list_parse_key("l");
    let m = se.collect().unwrap();
    assert_eq!(
        lookup(&m, "l"),
        Some(&TypedValue::List(vec!["x".to_owned(), "y".to_owned()]))
    );
}

#[test]
fn round_trip_mapping() {
    let se = build("PFX", vec![entry("PFX_FOO__BAR", "1"), entry("PFX_BAZ", "hello")]);
    let m = se.collect().unwrap();
    assert_eq!(m.len(), 2);
    assert_eq!(lookup(&m, "foo.bar"), Some(&TypedValue::Integer(1)));
    assert_eq!(lookup(&m, "baz"), Some(&TypedValue::Str("hello".to_owned())));
    for (_, e) in &m {
        assert_eq!(e.origin, "the environment");
    }
}

#[test]
fn custom_separators() {
    let se = build("PFX", vec![entry("PFX_A-B", "1")]).separator("-");
    let m = se.collect().unwrap();
    assert_eq!(lookup(&m, "a.b"), Some(&TypedValue::Integer(1)));

    let se = build("PFX", vec![entry("PFX_FOO__BAR", "1")]).separator("");
    let m = se.collect().unwrap();
    assert_eq!(lookup(&m, "foo__bar"), Some(&TypedValue::Integer(1)));
}

#[test]
fn try_parsing_disabled_keeps_strings() {
    let se = build(
        "PFX",
        vec![
            entry("PFX_A", "true"),
            entry("PFX_B", "42"),
            entry("PFX_C", "1.5"),
            entry("PFX_D", "a,b"),
        ],
    )
    .try_parsing(false)
    .with_list_parse_key("d");
    let m = se.collect().unwrap();
    assert_eq!(lookup(&m, "a"), Some(&TypedValue::Str("true".to_owned())));
    assert_eq!(lookup(&m, "b"), Some(&TypedValue::Str("42".to_owned())));
    assert_eq!(lookup(&m, "c"), Some(&TypedValue::Str("1.5".to_owned())));
    assert_eq!(lookup(&m, "d"), Some(&TypedValue::Str("a,b".to_owned())));
}

#[test]
fn collect_is_idempotent() {
    let se = build(
        "PFX",
        vec![entry("PFX_A", "true"), entry("PFX_B", "42"), entry("PFX_C", "x,y")],
    )
    .with_list_parse_key("c");
    let first = se.collect().unwrap();
    let second = se.collect().unwrap();
    assert_eq!(first, second);
}

#[test]
fn later_entry_replaces_colliding_key() {
    let se = build("PFX", vec![entry("PFX_A__B", "1"), entry("PFX_A__b", "2")]);
    let m = se.collect().unwrap();
    assert_eq!(m.len(), 1);
    assert_eq!(lookup(&m, "a.b"), Some(&TypedValue::Integer(2)));
}
