use safe_environment::source::SafeEnvironment;
use safe_environment::value::{TypedEntry, TypedValue};

fn entry(k: &str, v: &str) -> (Option<String>, Option<String>) {
    (Some(k.to_owned()), Some(v.to_owned()))
}

fn lookup<'a>(m: &'a [(String, TypedEntry)], k: &str) -> Option<&'a TypedValue> {
    m.iter().find(|p| p.0 == k).map(|p| &p.1.value)
}

#[test]
fn unprefixed_keys_are_absent() {
    let raw = vec![
        entry("OTHER_X", "1"),
        entry("PFX_KEPT", "2"),
        entry("PFXKEPT", "3"),
        entry("pfx_lower", "4"),
    ];
    let se = SafeEnvironment::with_prefix_and_filter("PFX", |_s: &str| true, raw).unwrap();
    let m = se.collect().unwrap();
    assert_eq!(m.len(), 1);
    assert_eq!(lookup(&m, "kept"), Some(&TypedValue::Integer(2)));
}

#[test]
fn predicate_filters_suffixes() {
    let raw = vec![
        entry("PFX_KEEP_ME", "1"),
        entry("PFX_DROP_ME", "2"),
        entry("PFX_KEEP_TOO", "3"),
    ];
    let se =
        SafeEnvironment::with_prefix_and_filter("PFX", |s: &str| s.starts_with("KEEP"), raw)
            .unwrap();
    let m = se.collect().unwrap();
    assert_eq!(m.len(), 2);
    assert_eq!(lookup(&m, "keep_me"), Some(&TypedValue::Integer(1)));
    assert_eq!(lookup(&m, "keep_too"), Some(&TypedValue::Integer(3)));
    assert_eq!(lookup(&m, "drop_me"), None);
}

#[test]
fn undecodable_entries_are_dropped() {
    let raw = vec![
        (None, Some("1".to_owned())),
        (Some("PFX_NOVALUE".to_owned()), None),
        (None, None),
        entry("PFX_GOOD", "ok"),
    ];
    let se = SafeEnvironment::with_prefix_and_filter("PFX", |_s: &str| true, raw).unwrap();
    let m = se.collect().unwrap();
    assert_eq!(m.len(), 1);
    assert_eq!(lookup(&m, "good"), Some(&TypedValue::Str("ok".to_owned())));
}

#[test]
fn snapshot_keeps_original_case_until_collect() {
    let raw = vec![entry("PFX_MiXeD__CaSe", "true")];
    let se = SafeEnvironment::with_prefix_and_filter("PFX", |_s: &str| true, raw).unwrap();
    let m = se.collect().unwrap();
    assert_eq!(lookup(&m, "mixed.case"), Some(&TypedValue::Boolean(true)));
}

#[test]
fn prefix_is_stripped_case_insensitively_at_collect() {
    let raw = vec![entry("Pfx_KEY", "7")];
    let se = SafeEnvironment::with_prefix_and_filter("Pfx", |_s: &str| true, raw).unwrap();
    let m = se.collect().unwrap();
    assert_eq!(lookup(&m, "key"), Some(&TypedValue::Integer(7)));
}

#[test]
fn empty_snapshot_collects_empty() {
    let se =
        SafeEnvironment::with_prefix_and_filter("PFX", |_s: &str| true, Vec::new()).unwrap();
    let m = se.collect().unwrap();
    assert!(m.is_empty());
}
