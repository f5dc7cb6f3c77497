use parq::flatten::{flatten_object, object_get};
use parq::json::{JsonEntry, JsonNumber, JsonValue, Rendered};

/// The library's value for a serde_json value, built the way the library's
/// parser builds it.
fn to_json(v: serde_json::Value) -> JsonValue {
    let rendered = Rendered { compact: v.to_string(), debug: format!("{:?}", v) };
    match v {
        serde_json::Value::Null => JsonValue::Null,
        serde_json::Value::Bool(b) => JsonValue::Bool(b),
        serde_json::Value::Number(n) => {
            JsonValue::Number(JsonNumber { text: n.to_string(), integer: n.as_i64() })
        }
        serde_json::Value::String(s) => JsonValue::String(s),
        serde_json::Value::Array(_) => JsonValue::Array(rendered),
        serde_json::Value::Object(m) => JsonValue::Object(
            m.into_iter().map(|(key, x)| JsonEntry { key, value: to_json(x) }).collect(),
            rendered,
        ),
    }
}

fn object(text: &str) -> Vec<JsonEntry> {
    match to_json(serde_json::from_str(text).unwrap()) {
        JsonValue::Object(es, _) => es,
        other => panic!("not an object: {other:?}"),
    }
}

fn value(text: &str) -> JsonValue {
    to_json(serde_json::from_str(text).unwrap())
}

fn flat(text: &str) -> Vec<JsonEntry> {
    flatten_object(&object(text), "_")
}

fn at<'a>(obj: &'a Vec<JsonEntry>, key: &str) -> &'a JsonValue {
    object_get(obj, &key.to_string()).unwrap_or_else(|| panic!("no key {key}"))
}

#[test]
fn flat_object_unchanged() {
    let f = flat(r#"{"a": 1, "b": "x", "c": true}"#);
    assert_eq!(*at(&f, "a"), value("1"));
    assert_eq!(*at(&f, "b"), value(r#""x""#));
    assert_eq!(*at(&f, "c"), value("true"));
}

#[test]
fn single_level_nesting() {
    let f = flat(r#"{"user": {"id": 42, "name": "Alice"}}"#);
    assert_eq!(*at(&f, "user_id"), value("42"));
    assert_eq!(*at(&f, "user_name"), value(r#""Alice""#));
    assert!(object_get(&f, &"user".to_string()).is_none());
}

#[test]
fn deep_nesting() {
    let f = flat(r#"{"a": {"b": {"c": {"d": 99}}}}"#);
    assert_eq!(*at(&f, "a_b_c_d"), value("99"));
}

#[test]
fn array_becomes_json_string() {
    let f = flat(r#"{"tags": ["rust", "parquet"]}"#);
    assert_eq!(*at(&f, "tags"), JsonValue::String(r#"["rust","parquet"]"#.to_string()));
}

#[test]
fn null_preserved() {
    let f = flat(r#"{"x": null, "n": {"y": null}}"#);
    assert_eq!(*at(&f, "x"), JsonValue::Null);
    assert_eq!(*at(&f, "n_y"), JsonValue::Null);
}

#[test]
fn flatten_keeps_other_separators() {
    let f = flatten_object(&object(r#"{"a": {"b": 1}, "c": 2}"#), ".");
    assert_eq!(*at(&f, "a.b"), value("1"));
    assert_eq!(*at(&f, "c"), value("2"));
    assert_eq!(f.len(), 2);
}

#[test]
fn later_write_to_same_key_wins() {
    // Members are visited in key order: "a" (giving "a_b" = 2) before "a_b" (= 1).
    let f = flat(r#"{"a_b": 1, "a": {"b": 2}}"#);
    assert_eq!(f.len(), 1);
    assert_eq!(*at(&f, "a_b"), value("1"));
}

#[test]
fn empty_nested_object_disappears() {
    let f = flat(r#"{"e": {}, "k": 3}"#);
    assert_eq!(f.len(), 1);
    assert_eq!(*at(&f, "k"), value("3"));
}

#[test]
fn flattened_values_are_leaves() {
    let f = flat(r#"{"a": {"b": [1, {"c": 2}], "d": {"e": {}}}, "f": [[]]}"#);
    for e in &f {
        assert!(!matches!(e.value, JsonValue::Object(..) | JsonValue::Array(..)));
    }
    assert_eq!(*at(&f, "a_b"), JsonValue::String(r#"[1,{"c":2}]"#.to_string()));
    assert_eq!(*at(&f, "f"), JsonValue::String("[[]]".to_string()));
}
