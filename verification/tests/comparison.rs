use std::cmp::Ordering;

use sentinel_dbms::comparison::{compare_json_values, compare_values};
use sentinel_dbms::json::{JsonNumber, JsonValue};
use serde_json::Value;

fn j(s: &str) -> Value {
    serde_json::from_str(s).unwrap()
}

fn rank(x: f64) -> i64 {
    if x.is_sign_negative() {
        -((-x).to_bits() as i64)
    } else {
        x.to_bits() as i64
    }
}

fn conv(v: &Value) -> JsonValue {
    match v {
        Value::Null => JsonValue::Null,
        Value::Bool(b) => JsonValue::Bool(*b),
        Value::Number(n) => JsonValue::Number(JsonNumber { text: n.to_string(), float_rank: n.as_f64().map(rank) }),
        Value::String(s) => JsonValue::String(s.clone()),
        Value::Array(a) => JsonValue::Array(a.iter().map(conv).collect()),
        Value::Object(m) => JsonValue::Object(m.iter().map(|(k, x)| (k.clone(), conv(x))).collect()),
    }
}

fn cmp(a: Value, b: Value) -> Ordering {
    compare_json_values(&conv(&a), &conv(&b))
}

fn parse(s: &str) -> Value {
    serde_json::from_str(s).unwrap()
}

#[test]
fn test_compare_json_values_null() {
    assert_eq!(cmp(j(r#"null"#), j(r#"null"#)), Ordering::Equal);
    assert_eq!(cmp(j(r#"null"#), j(r#"1"#)), Ordering::Less);
    assert_eq!(cmp(j(r#"1"#), j(r#"null"#)), Ordering::Greater);
}

#[test]
fn test_compare_json_values_bool() {
    assert_eq!(cmp(j(r#"true"#), j(r#"true"#)), Ordering::Equal);
    assert_eq!(cmp(j(r#"false"#), j(r#"true"#)), Ordering::Less);
    assert_eq!(cmp(j(r#"true"#), j(r#"false"#)), Ordering::Greater);
    assert_eq!(cmp(j(r#"true"#), j(r#""string""#)), Ordering::Less);
    assert_eq!(cmp(j(r#""string""#), j(r#"true"#)), Ordering::Greater);
}

#[test]
fn test_compare_json_values_number() {
    assert_eq!(cmp(j(r#"1"#), j(r#"1"#)), Ordering::Equal);
    assert_eq!(cmp(j(r#"1"#), j(r#"2"#)), Ordering::Less);
    assert_eq!(cmp(j(r#"2"#), j(r#"1"#)), Ordering::Greater);
    assert_eq!(cmp(j(r#"1.5"#), j(r#"1"#)), Ordering::Greater);
    assert_eq!(cmp(j(r#"1"#), j(r#""string""#)), Ordering::Less);
    assert_eq!(cmp(j(r#""string""#), j(r#"1"#)), Ordering::Greater);
}

#[test]
fn test_compare_json_values_very_large_numbers() {
    let large1 = parse("1000000000000000000000000000000000000000000000000000000000000000000000000000000");
    let large2 = parse("2000000000000000000000000000000000000000000000000000000000000000000000000000000");
    assert_eq!(cmp(large1.clone(), large2.clone()), Ordering::Less);
    assert_eq!(cmp(large2, large1.clone()), Ordering::Greater);
    assert_eq!(cmp(large1.clone(), large1), Ordering::Equal);
}

#[test]
fn test_compare_json_values_negative_large_numbers() {
    let neg_large1 = parse("-1000000000000000000000000000000000000000000000000000000000000000000000000000000");
    let neg_large2 = parse("-2000000000000000000000000000000000000000000000000000000000000000000000000000000");
    let pos_large = parse("1000000000000000000000000000000000000000000000000000000000000000000000000000000");
    assert_eq!(cmp(neg_large1.clone(), neg_large2.clone()), Ordering::Greater);
    assert_eq!(cmp(neg_large2, neg_large1.clone()), Ordering::Less);
    assert_eq!(cmp(neg_large1.clone(), pos_large.clone()), Ordering::Less);
    assert_eq!(cmp(pos_large, neg_large1), Ordering::Greater);
}

#[test]
fn test_compare_json_values_large_numbers() {
    let neg_large = j(r#"-1e308"#);
    let pos_large = j(r#"1e308"#);
    assert_eq!(cmp(neg_large.clone(), pos_large.clone()), Ordering::Less);
    assert_eq!(cmp(pos_large, neg_large), Ordering::Greater);
}

#[test]
fn test_compare_json_values_string() {
    assert_eq!(cmp(j(r#""a""#), j(r#""a""#)), Ordering::Equal);
    assert_eq!(cmp(j(r#""a""#), j(r#""b""#)), Ordering::Less);
    assert_eq!(cmp(j(r#""b""#), j(r#""a""#)), Ordering::Greater);
    assert_eq!(cmp(j(r#""a""#), j(r#"1"#)), Ordering::Greater);
    assert_eq!(cmp(j(r#"1"#), j(r#""a""#)), Ordering::Less);
}

#[test]
fn test_compare_json_values_array() {
    assert_eq!(cmp(j(r#"[1]"#), j(r#"[1]"#)), Ordering::Equal);
    assert_eq!(cmp(j(r#"[1]"#), j(r#"[1, 2]"#)), Ordering::Less);
    assert_eq!(cmp(j(r#"[1, 2]"#), j(r#"[1]"#)), Ordering::Greater);
    assert_eq!(cmp(j(r#"[1]"#), j(r#""string""#)), Ordering::Greater);
    assert_eq!(cmp(j(r#""string""#), j(r#"[1]"#)), Ordering::Less);
}

#[test]
fn test_compare_json_values_object() {
    assert_eq!(cmp(j(r#"{"a": 1}"#), j(r#"{"a": 1}"#)), Ordering::Equal);
    assert_eq!(cmp(j(r#"{"a": 1}"#), j(r#"{"a": 1, "b": 2}"#)), Ordering::Less);
    assert_eq!(cmp(j(r#"{"a": 1, "b": 2}"#), j(r#"{"a": 1}"#)), Ordering::Greater);
    assert_eq!(cmp(j(r#"{"a": 1}"#), j(r#""string""#)), Ordering::Greater);
    assert_eq!(cmp(j(r#""string""#), j(r#"{"a": 1}"#)), Ordering::Less);
}

#[test]
fn test_compare_values_none() {
    let one = conv(&j(r#"1"#));
    assert_eq!(compare_values(None, None), Ordering::Equal);
    assert_eq!(compare_values(None, Some(&one)), Ordering::Less);
    assert_eq!(compare_values(Some(&one), None), Ordering::Greater);
}

#[test]
fn test_compare_values_some() {
    let one = conv(&j(r#"1"#));
    let two = conv(&j(r#"2"#));
    assert_eq!(compare_values(Some(&one), Some(&one)), Ordering::Equal);
    assert_eq!(compare_values(Some(&one), Some(&two)), Ordering::Less);
}

fn digits(lead: char, zeros: usize, negative: bool) -> Value {
    let mut s = String::new();
    if negative {
        s.push('-');
    }
    s.push(lead);
    for _ in 0..zeros {
        s.push('0');
    }
    parse(&s)
}

#[test]
fn test_compare_json_values_string_numbers_negative_vs_positive() {
    let neg = digits('1', 310, true);
    let pos = digits('1', 310, false);
    assert_eq!(cmp(neg, pos), Ordering::Less);
}

#[test]
fn test_compare_json_values_string_numbers_positive_vs_negative() {
    let pos = digits('1', 310, false);
    let neg = digits('1', 310, true);
    assert_eq!(cmp(pos, neg), Ordering::Greater);
}

#[test]
fn test_compare_json_values_both_negative_same_length() {
    let neg1 = digits('1', 310, true);
    let neg2 = digits('9', 310, true);
    assert_eq!(cmp(neg1, neg2), Ordering::Greater);
}

#[test]
fn test_compare_json_values_both_positive_same_length() {
    let pos1 = digits('1', 310, false);
    let pos2 = digits('9', 310, false);
    assert_eq!(cmp(pos1, pos2), Ordering::Less);
}

#[test]
fn test_compare_json_values_both_negative_different_length() {
    let neg_short = digits('1', 303, true);
    let neg_long = digits('1', 310, true);
    assert_eq!(cmp(neg_short, neg_long), Ordering::Greater);
}

#[test]
fn test_compare_json_values_both_positive_different_length() {
    let pos_short = digits('1', 303, false);
    let pos_long = digits('1', 310, false);
    assert_eq!(cmp(pos_short, pos_long), Ordering::Less);
}

#[test]
fn order_is_not_transitive_when_ranked_numbers_meet_unranked_ones() {
    // 5 < 1e400 by text, 1e400 < 0.000001 by text, 0.000001 < 5 by value.
    assert_eq!(cmp(j("5"), j("1e400")), Ordering::Less);
    assert_eq!(cmp(j("1e400"), j("0.000001")), Ordering::Less);
    assert_eq!(cmp(j("0.000001"), j("5")), Ordering::Less);
    // Without a ranked pair the text order is transitive: 1e400 < 2e400 < 3e400.
    assert_eq!(cmp(j("1e400"), j("2e400")), Ordering::Less);
    assert_eq!(cmp(j("2e400"), j("3e400")), Ordering::Less);
    assert_eq!(cmp(j("1e400"), j("3e400")), Ordering::Less);
}

#[test]
fn both_zeros_sort_equal() {
    assert_eq!(cmp(j("-0.0"), j("0")), Ordering::Equal);
    assert_eq!(cmp(j("-0.0"), j("-1")), Ordering::Greater);
}
