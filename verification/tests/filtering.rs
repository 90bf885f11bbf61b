use sentinel_dbms::collection::Collection;
use sentinel_dbms::document::{Document, Timestamp};
use sentinel_dbms::filtering::matches_filters;
use sentinel_dbms::json::{JsonNumber, JsonValue};
use sentinel_dbms::query::Filter;
use serde_json::Value;

fn j(s: &str) -> Value {
    serde_json::from_str(s).unwrap()
}

fn rank(x: f64) -> i64 {
    if x.is_sign_negative() {
        -((-x).to_bits() as i64)
    } else {
        x.to_bits() as i64
    }
}

fn conv(v: &Value) -> JsonValue {
    match v {
        Value::Null => JsonValue::Null,
        Value::Bool(b) => JsonValue::Bool(*b),
        Value::Number(n) => JsonValue::Number(JsonNumber { text: n.to_string(), float_rank: n.as_f64().map(rank) }),
        Value::String(s) => JsonValue::String(s.clone()),
        Value::Array(a) => JsonValue::Array(a.iter().map(conv).collect()),
        Value::Object(m) => JsonValue::Object(m.iter().map(|(k, x)| (k.clone(), conv(x))).collect()),
    }
}

fn back(v: &JsonValue) -> Value {
    match v {
        JsonValue::Null => Value::Null,
        JsonValue::Bool(b) => Value::Bool(*b),
        JsonValue::Number(n) => serde_json::from_str(&n.text).unwrap(),
        JsonValue::String(s) => Value::String(s.clone()),
        JsonValue::Array(a) => Value::Array(a.iter().map(back).collect()),
        JsonValue::Object(m) => Value::Object(m.iter().map(|(k, x)| (k.clone(), back(x))).collect()),
    }
}

fn create_doc(data: Value) -> Document {
    Document::new("test".to_string(), conv(&data), "h".to_string(), String::new(), Timestamp { secs: 0, nanos: 0 })
}

fn eq(field: &str, v: Value) -> Filter {
    Filter::Equals(field.to_string(), conv(&v))
}

#[test]
fn test_matches_filters_equals() {
    let doc = create_doc(j(r#"{"name": "Alice", "age": 25}"#));
    assert!(matches_filters(&doc, &[&eq("name", j(r#""Alice""#))]));
    assert!(!matches_filters(&doc, &[&eq("name", j(r#""Bob""#))]));
}

#[test]
fn test_matches_filters_greater_than() {
    let doc = create_doc(j(r#"{"age": 25}"#));
    assert!(matches_filters(&doc, &[&Filter::GreaterThan("age".to_string(), conv(&j(r#"20"#)))]));
    assert!(!matches_filters(&doc, &[&Filter::GreaterThan("age".to_string(), conv(&j(r#"30"#)))]));
    let doc = create_doc(j(r#"{"name": "Alice"}"#));
    assert!(!matches_filters(&doc, &[&Filter::GreaterThan("name".to_string(), conv(&j(r#"20"#)))]));
}

#[test]
fn test_matches_filters_greater_or_equal() {
    let doc = create_doc(j(r#"{"age": 25}"#));
    assert!(matches_filters(&doc, &[&Filter::GreaterOrEqual("age".to_string(), conv(&j(r#"25"#)))]));
    assert!(matches_filters(&doc, &[&Filter::GreaterOrEqual("age".to_string(), conv(&j(r#"20"#)))]));
    assert!(!matches_filters(&doc, &[&Filter::GreaterOrEqual("age".to_string(), conv(&j(r#"30"#)))]));
}

#[test]
fn test_matches_filters_greater_or_equal_non_number() {
    let doc = create_doc(j(r#"{"name": "Alice"}"#));
    assert!(!matches_filters(&doc, &[&Filter::GreaterOrEqual("name".to_string(), conv(&j(r#"20"#)))]));
}

#[test]
fn test_matches_filters_less_than() {
    let doc = create_doc(j(r#"{"age": 25}"#));
    assert!(!matches_filters(&doc, &[&Filter::LessThan("age".to_string(), conv(&j(r#"20"#)))]));
    assert!(matches_filters(&doc, &[&Filter::LessThan("age".to_string(), conv(&j(r#"30"#)))]));
    let doc = create_doc(j(r#"{"name": "Alice"}"#));
    assert!(!matches_filters(&doc, &[&Filter::LessThan("name".to_string(), conv(&j(r#"20"#)))]));
}

#[test]
fn test_matches_filters_less_or_equal() {
    let doc = create_doc(j(r#"{"age": 25}"#));
    assert!(matches_filters(&doc, &[&Filter::LessOrEqual("age".to_string(), conv(&j(r#"25"#)))]));
    assert!(matches_filters(&doc, &[&Filter::LessOrEqual("age".to_string(), conv(&j(r#"30"#)))]));
    assert!(!matches_filters(&doc, &[&Filter::LessOrEqual("age".to_string(), conv(&j(r#"20"#)))]));
}

#[test]
fn test_matches_filters_less_or_equal_non_number() {
    let doc = create_doc(j(r#"{"name": "Alice"}"#));
    assert!(!matches_filters(&doc, &[&Filter::LessOrEqual("name".to_string(), conv(&j(r#"20"#)))]));
}

#[test]
fn test_matches_filters_in() {
    let doc = create_doc(j(r#"{"status": "active"}"#));
    let f = Filter::In("status".to_string(), vec![conv(&j(r#""active""#)), conv(&j(r#""inactive""#))]);
    assert!(matches_filters(&doc, &[&f]));
    let f = Filter::In("status".to_string(), vec![conv(&j(r#""inactive""#))]);
    assert!(!matches_filters(&doc, &[&f]));
}

#[test]
fn test_matches_filters_contains_string() {
    let doc = create_doc(j(r#"{"name": "Alice"}"#));
    assert!(matches_filters(&doc, &[&Filter::Contains("name".to_string(), "Ali".to_string())]));
    assert!(!matches_filters(&doc, &[&Filter::Contains("name".to_string(), "Bob".to_string())]));
}

#[test]
fn test_matches_filters_contains_array() {
    let doc = create_doc(j(r#"{"tags": ["rust", "programming"]}"#));
    assert!(matches_filters(&doc, &[&Filter::Contains("tags".to_string(), "rust".to_string())]));
    assert!(!matches_filters(&doc, &[&Filter::Contains("tags".to_string(), "python".to_string())]));
}

#[test]
fn test_matches_filters_contains_array_mixed_types() {
    let doc = create_doc(j(r#"{"tags": ["rust", 42, true]}"#));
    assert!(matches_filters(&doc, &[&Filter::Contains("tags".to_string(), "rust".to_string())]));
    assert!(!matches_filters(&doc, &[&Filter::Contains("tags".to_string(), "42".to_string())]));
}

#[test]
fn test_matches_filters_starts_with() {
    let doc = create_doc(j(r#"{"name": "Alice"}"#));
    assert!(matches_filters(&doc, &[&Filter::StartsWith("name".to_string(), "Ali".to_string())]));
    assert!(!matches_filters(&doc, &[&Filter::StartsWith("name".to_string(), "Bob".to_string())]));
    let doc = create_doc(j(r#"{"age": 25}"#));
    assert!(!matches_filters(&doc, &[&Filter::StartsWith("age".to_string(), "2".to_string())]));
}

#[test]
fn test_matches_filters_ends_with() {
    let doc = create_doc(j(r#"{"name": "Alice"}"#));
    assert!(matches_filters(&doc, &[&Filter::EndsWith("name".to_string(), "ice".to_string())]));
    assert!(!matches_filters(&doc, &[&Filter::EndsWith("name".to_string(), "Bob".to_string())]));
    let doc = create_doc(j(r#"{"age": 25}"#));
    assert!(!matches_filters(&doc, &[&Filter::EndsWith("age".to_string(), "5".to_string())]));
}

#[test]
fn test_matches_filters_exists() {
    let doc = create_doc(j(r#"{"name": "Alice"}"#));
    assert!(matches_filters(&doc, &[&Filter::Exists("name".to_string(), true)]));
    assert!(!matches_filters(&doc, &[&Filter::Exists("age".to_string(), true)]));
    assert!(matches_filters(&doc, &[&Filter::Exists("age".to_string(), false)]));
}

#[test]
fn test_matches_filters_and() {
    let doc = create_doc(j(r#"{"name": "Alice", "age": 25}"#));
    let f = Filter::And(
        Box::new(eq("name", j(r#""Alice""#))),
        Box::new(Filter::GreaterThan("age".to_string(), conv(&j(r#"20"#)))),
    );
    assert!(matches_filters(&doc, &[&f]));
    let f = Filter::And(
        Box::new(eq("name", j(r#""Alice""#))),
        Box::new(Filter::GreaterThan("age".to_string(), conv(&j(r#"30"#)))),
    );
    assert!(!matches_filters(&doc, &[&f]));
}

#[test]
fn test_matches_filters_or() {
    let doc = create_doc(j(r#"{"name": "Alice", "age": 25}"#));
    let f = Filter::Or(
        Box::new(eq("name", j(r#""Bob""#))),
        Box::new(Filter::GreaterThan("age".to_string(), conv(&j(r#"20"#)))),
    );
    assert!(matches_filters(&doc, &[&f]));
    let f = Filter::Or(
        Box::new(eq("name", j(r#""Bob""#))),
        Box::new(Filter::GreaterThan("age".to_string(), conv(&j(r#"30"#)))),
    );
    assert!(!matches_filters(&doc, &[&f]));
}

#[test]
fn test_matches_filters_multiple() {
    let doc = create_doc(j(r#"{"name": "Alice", "age": 25}"#));
    let filters = vec![eq("name", j(r#""Alice""#)), Filter::GreaterThan("age".to_string(), conv(&j(r#"20"#)))];
    assert!(matches_filters(&doc, &filters.iter().collect::<Vec<_>>()));
    let filters = vec![eq("name", j(r#""Alice""#)), Filter::GreaterThan("age".to_string(), conv(&j(r#"30"#)))];
    assert!(!matches_filters(&doc, &filters.iter().collect::<Vec<_>>()));
}

#[test]
fn empty_filter_list_matches_everything() {
    let doc = create_doc(j(r#"null"#));
    assert!(matches_filters(&doc, &[]));
}

#[test]
fn test_merge_json_values_objects() {
    let existing = conv(&j(r#"{"a": 1, "b": 2, "c": 3}"#));
    let new = conv(&j(r#"{"b": 20, "d": 4}"#));
    let merged = back(&Collection::merge_json_values(&existing, new));
    let merged_obj = merged.as_object().unwrap();
    assert_eq!(merged_obj["a"], 1);
    assert_eq!(merged_obj["b"], 20);
    assert_eq!(merged_obj["c"], 3);
    assert_eq!(merged_obj["d"], 4);
}

#[test]
fn test_merge_json_values_non_objects() {
    let existing = conv(&j(r#"{"name": "Alice"}"#));
    let merged = back(&Collection::merge_json_values(&existing, conv(&j(r#""replacement string""#))));
    assert_eq!(merged, "replacement string");
}

#[test]
fn test_merge_json_values_array_replacement() {
    let existing = conv(&j(r#"{"items": [1, 2, 3]}"#));
    let merged = back(&Collection::merge_json_values(&existing, conv(&j(r#"{"items": [4, 5]}"#))));
    let merged_items = merged["items"].as_array().unwrap();
    assert_eq!(merged_items.len(), 2);
    assert_eq!(merged_items[0], 4);
    assert_eq!(merged_items[1], 5);
}

#[test]
fn merge_keeps_keys_in_order() {
    let existing = conv(&j(r#"{"name": "Alice", "age": 30}"#));
    let merged = Collection::merge_json_values(&existing, conv(&j(r#"{"age": 31, "email": "alice@example.com"}"#)));
    match &merged {
        JsonValue::Object(m) => {
            let keys: Vec<&str> = m.iter().map(|(k, _)| k.as_str()).collect();
            assert_eq!(keys, vec!["age", "email", "name"]);
        },
        _ => panic!("expected an object"),
    }
    assert_eq!(back(&merged), j(r#"{"name": "Alice", "age": 31, "email": "alice@example.com"}"#));
}

#[test]
fn merging_an_update_twice_is_merging_once() {
    let existing = conv(&j(r#"{"name": "Alice", "age": 30, "tags": ["a"]}"#));
    let update = conv(&j(r#"{"age": 31, "email": "a@example.com"}"#));
    let once = Collection::merge_json_values(&existing, update.clone_value());
    let twice = Collection::merge_json_values(&once, update);
    assert_eq!(back(&once), back(&twice));
    let not_object = Collection::merge_json_values(&conv(&j("[1, 2]")), conv(&j(r#"{"x": 1}"#)));
    assert_eq!(back(&not_object), j(r#"{"x": 1}"#));
}
