use clawpal::doctor::{
    delete_json_path, dotted_path_parts, json_path_get, upsert_json_path,
    validate_doctor_relative_path,
};
use clawpal::json::{JsonNumber, JsonValue};

fn obj(members: Vec<(&str, JsonValue)>) -> JsonValue {
    JsonValue::Object(members.into_iter().map(|(k, v)| (k.to_string(), v)).collect())
}

fn s(text: &str) -> JsonValue {
    JsonValue::Str(text.to_string())
}

fn n(value: u64) -> JsonValue {
    JsonValue::Number(JsonNumber::PosInt(value))
}

#[test]
fn delete_json_path_removes_nested_field() {
    let mut doc = obj(vec![(
        "commands",
        obj(vec![("ownerDisplay", s("raw")), ("other", n(1))]),
    )]);
    assert!(delete_json_path(&mut doc, "commands.ownerDisplay"));
    assert!(doc.get("commands").unwrap().get("ownerDisplay").is_none());
}

#[test]
fn upsert_json_path_sets_nested_field() {
    let mut doc = obj(vec![("commands", obj(vec![("other", n(1))]))]);
    upsert_json_path(&mut doc, "commands.ownerDisplay", s("raw")).expect("upsert");
    assert_eq!(doc.get("commands").unwrap().get("ownerDisplay"), Some(&s("raw")));
    assert_eq!(doc.get("commands").unwrap().get("other"), Some(&n(1)));
}

#[test]
fn json_path_get_reads_nested_field() {
    let doc = obj(vec![("commands", obj(vec![("ownerDisplay", s("raw"))]))]);
    assert_eq!(
        json_path_get(&doc, "commands.ownerDisplay")
            .and_then(JsonValue::as_str)
            .unwrap_or_default(),
        "raw"
    );
}

#[test]
fn validate_doctor_relative_path_rejects_parent_dir() {
    let err = validate_doctor_relative_path("../secret").expect_err("must fail");
    assert!(err.contains("forbidden traversal"));
}

#[test]
fn validate_doctor_relative_path_accepts_plain_relative_path() {
    assert_eq!(validate_doctor_relative_path("  config/openclaw.json "), Ok(()));
    assert_eq!(validate_doctor_relative_path("logs/"), Ok(()));
}

#[test]
fn validate_doctor_relative_path_error_cases() {
    assert_eq!(
        validate_doctor_relative_path("   "),
        Err("doctor file path cannot be empty".to_string())
    );
    assert_eq!(
        validate_doctor_relative_path("/etc/passwd"),
        Err("doctor file path must be relative to domain root".to_string())
    );
    assert_eq!(
        validate_doctor_relative_path("~/notes"),
        Err("doctor file path must be relative to domain root".to_string())
    );
    assert_eq!(
        validate_doctor_relative_path("a//b"),
        Err("doctor file path contains forbidden traversal segment".to_string())
    );
    assert_eq!(
        validate_doctor_relative_path("a/b\0c"),
        Err("doctor file path contains forbidden traversal segment".to_string())
    );
}

#[test]
fn dotted_path_parts_trims_and_skips_empty_segments() {
    assert_eq!(
        dotted_path_parts(" a . b..c "),
        vec!["a".to_string(), "b".to_string(), "c".to_string()]
    );
    assert!(dotted_path_parts(" . . ").is_empty());
}

#[test]
fn json_path_get_with_empty_path_returns_root() {
    let doc = obj(vec![("k", n(3))]);
    assert_eq!(json_path_get(&doc, " . "), Some(&doc));
    assert_eq!(json_path_get(&doc, "k.missing"), None);
}

#[test]
fn upsert_creates_missing_objects_then_get_reads_value() {
    let mut doc = obj(vec![]);
    upsert_json_path(&mut doc, "a.b.c", n(7)).expect("upsert");
    assert_eq!(json_path_get(&doc, "a.b.c"), Some(&n(7)));
    assert_eq!(doc, obj(vec![("a", obj(vec![("b", obj(vec![("c", n(7))]))]))]));
}

#[test]
fn upsert_replaces_existing_value() {
    let mut doc = obj(vec![("x", n(1)), ("y", n(2))]);
    upsert_json_path(&mut doc, "x", s("new")).expect("upsert");
    assert_eq!(doc, obj(vec![("x", s("new")), ("y", n(2))]));
}

#[test]
fn upsert_error_cases_leave_document_unchanged() {
    let mut doc = obj(vec![("x", n(1))]);
    assert_eq!(
        upsert_json_path(&mut doc, "x.y", n(2)),
        Err("path segment 'x' is not an object".to_string())
    );
    assert_eq!(
        upsert_json_path(&mut doc, " ", n(2)),
        Err("doctor config-upsert requires non-empty <json.path>".to_string())
    );
    assert_eq!(doc, obj(vec![("x", n(1))]));
    let mut scalar = n(5);
    assert_eq!(
        upsert_json_path(&mut scalar, "x", n(2)),
        Err("target parent is not an object".to_string())
    );
    assert_eq!(
        upsert_json_path(&mut scalar, "x.y", n(2)),
        Err("path segment 'x' is not an object".to_string())
    );
    assert_eq!(scalar, n(5));
}

#[test]
fn delete_missing_member_returns_false_and_keeps_document() {
    let mut doc = obj(vec![("x", obj(vec![("y", n(1))]))]);
    assert!(!delete_json_path(&mut doc, "x.z"));
    assert!(!delete_json_path(&mut doc, "q.y"));
    assert!(!delete_json_path(&mut doc, ""));
    assert_eq!(doc, obj(vec![("x", obj(vec![("y", n(1))]))]));
}

#[test]
fn delete_after_upsert_removes_value() {
    let mut doc = obj(vec![("keep", n(1))]);
    upsert_json_path(&mut doc, "a.b", n(2)).expect("upsert");
    assert!(delete_json_path(&mut doc, "a.b"));
    assert_eq!(json_path_get(&doc, "a.b"), None);
    assert_eq!(json_path_get(&doc, "keep"), Some(&n(1)));
}

#[test]
fn upsert_and_delete_leave_unrelated_deep_paths_alone() {
    let mut doc = obj(vec![
        ("a", obj(vec![("b", obj(vec![("c", n(1)), ("d", n(2))])), ("e", n(3))])),
        ("f", obj(vec![("g", n(4))])),
    ]);
    upsert_json_path(&mut doc, "a.b.c", s("new")).unwrap();
    assert_eq!(json_path_get(&doc, "a.b.d"), Some(&n(2)));
    assert_eq!(json_path_get(&doc, "a.e"), Some(&n(3)));
    assert_eq!(json_path_get(&doc, "f.g"), Some(&n(4)));
    upsert_json_path(&mut doc, "a.x.y", n(9)).unwrap();
    assert_eq!(json_path_get(&doc, "a.x.z"), None);
    assert!(delete_json_path(&mut doc, "a.b.d"));
    assert_eq!(json_path_get(&doc, "a.b.c"), Some(&s("new")));
    assert_eq!(json_path_get(&doc, "f.g"), Some(&n(4)));
    assert_eq!(json_path_get(&doc, "a.x.y"), Some(&n(9)));
}
