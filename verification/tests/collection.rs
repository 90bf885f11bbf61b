use sentinel_dbms::collection::{AggregationResult, Collection, WalEntryKind, WalReplay};
use sentinel_dbms::document::{Document, Timestamp};
use sentinel_dbms::error::SentinelError;
use sentinel_dbms::json::{JsonNumber, JsonValue};
use sentinel_dbms::query::{Aggregation, Filter};

fn num(text: &str, x: f64) -> JsonValue {
    let rank = if x.is_sign_negative() { -((-x).to_bits() as i64) } else { x.to_bits() as i64 };
    JsonValue::Number(JsonNumber { text: text.to_string(), float_rank: Some(rank) })
}

fn doc(id: &str, members: Vec<(&str, JsonValue)>) -> Document {
    let data = JsonValue::Object(members.into_iter().map(|(k, v)| (k.to_string(), v)).collect());
    Document::new(id.to_string(), data, "h".to_string(), String::new(), Timestamp { secs: 0, nanos: 0 })
}

fn coll(name: &str) -> Collection {
    Collection::new(name.to_string(), false, Timestamp { secs: 1, nanos: 0 })
}

#[test]
fn insert_checks() {
    let c = coll("users");
    assert!(c.check_insert("doc-1", false).is_ok());
    assert!(matches!(c.check_insert("doc-1", true), Err(SentinelError::DocumentAlreadyExists { .. })));
    assert!(matches!(c.check_insert("bad id", false), Err(SentinelError::InvalidDocumentId { .. })));
    let internal = coll(".keys");
    assert!(internal.check_insert("doc-1", true).is_ok());
}

#[test]
fn test_bulk_insert_stops_on_error() {
    let c = coll("users");
    let r = c.check_bulk_insert(&["ok-1", "bad/id", "ok-2"], &[false, false, true]);
    match r {
        Err(SentinelError::InvalidDocumentId { id }) => assert_eq!(id, "bad/id"),
        _ => panic!("expected an invalid id"),
    }
    match c.check_bulk_insert(&["a", "b", "c"], &[false, true, true]) {
        Err(SentinelError::DocumentAlreadyExists { id, collection }) => {
            assert_eq!(id, "b");
            assert_eq!(collection, "users");
        },
        _ => panic!("expected an existing document"),
    }
    assert!(c.check_bulk_insert(&[], &[]).is_ok());
}

#[test]
fn upsert_and_not_found() {
    assert!(Collection::upsert_inserted(false));
    assert!(!Collection::upsert_inserted(true));
    match coll("users").document_not_found("x") {
        SentinelError::DocumentNotFound { id, collection } => assert_eq!((id.as_str(), collection.as_str()), ("x", "users")),
        _ => panic!("expected not found"),
    }
}

#[test]
fn file_names_to_ids() {
    assert_eq!(Collection::document_id_from_file_name("user-1.json", false), Some("user-1".to_string()));
    assert_eq!(Collection::document_id_from_file_name("user-1.json", true), None);
    assert_eq!(Collection::document_id_from_file_name(".metadata.json", false), None);
    assert_eq!(Collection::document_id_from_file_name("notes.txt", false), None);
    assert_eq!(Collection::document_id_from_file_name(".json", false), None);
    assert_eq!(Collection::document_id_from_file_name("json", false), None);
}

#[test]
fn wal_replay() {
    assert_eq!(Collection::wal_replay_action(WalEntryKind::Insert, true), Ok(WalReplay::Insert));
    assert_eq!(Collection::wal_replay_action(WalEntryKind::Insert, false), Err("Insert operation missing data".to_string()));
    assert_eq!(Collection::wal_replay_action(WalEntryKind::Update, false), Err("Update operation missing data".to_string()));
    assert_eq!(Collection::wal_replay_action(WalEntryKind::Delete, false), Ok(WalReplay::Delete));
    assert_eq!(Collection::wal_replay_action(WalEntryKind::Other, true), Ok(WalReplay::Skip));
}

#[test]
fn wal_writes_unless_recovering() {
    let mut c = coll("users");
    assert!(c.writes_to_wal(true));
    assert!(!c.writes_to_wal(false));
    c.recovery_mode = true;
    assert!(!c.writes_to_wal(true));
}

#[test]
fn aggregations() {
    let docs = vec![
        doc("a", vec![("age", num("30", 30.0)), ("city", JsonValue::String("NYC".to_string()))]),
        doc("b", vec![("age", num("25", 25.0)), ("city", JsonValue::String("LA".to_string()))]),
        doc("c", vec![("age", JsonValue::String("old".to_string())), ("city", JsonValue::String("NYC".to_string()))]),
        doc("d", vec![("age", num("-1.5", -1.5)), ("city", JsonValue::String("NYC".to_string()))]),
    ];
    let nyc = Filter::Equals("city".to_string(), JsonValue::String("NYC".to_string()));
    match Collection::aggregate(&docs, &[&nyc], &Aggregation::Count) {
        AggregationResult::Count(n) => assert_eq!(n, 3),
        _ => panic!("count"),
    }
    match Collection::aggregate(&docs, &[], &Aggregation::Sum("age".to_string())) {
        AggregationResult::Sum(v) => {
            let texts: Vec<&str> = v.iter().map(|n| n.text.as_str()).collect();
            assert_eq!(texts, vec!["30", "25", "-1.5"]);
        },
        _ => panic!("sum"),
    }
    match Collection::aggregate(&docs, &[], &Aggregation::Min("age".to_string())) {
        AggregationResult::Extreme(Some(n)) => assert_eq!(n.text, "-1.5"),
        _ => panic!("min"),
    }
    match Collection::aggregate(&docs, &[&nyc], &Aggregation::Max("age".to_string())) {
        AggregationResult::Extreme(Some(n)) => assert_eq!(n.text, "30"),
        _ => panic!("max"),
    }
    match Collection::aggregate(&docs, &[], &Aggregation::Max("missing".to_string())) {
        AggregationResult::Extreme(None) => {},
        _ => panic!("max of nothing"),
    }
    match Collection::aggregate(&docs, &[], &Aggregation::Avg("missing".to_string())) {
        AggregationResult::Avg(v) => assert!(v.is_empty()),
        _ => panic!("avg"),
    }
}

#[test]
fn numeric_value_extraction() {
    let d = doc("a", vec![("n", num("2", 2.0)), ("s", JsonValue::String("2".to_string()))]);
    assert_eq!(Collection::extract_numeric_value(&d, "n").map(|n| n.text), Some("2".to_string()));
    assert!(Collection::extract_numeric_value(&d, "s").is_none());
    assert!(Collection::extract_numeric_value(&d, "zz").is_none());
}

#[test]
fn collection_accessors() {
    let mut c = coll("orders");
    assert_eq!(c.name(), "orders");
    assert_eq!(c.last_checkpoint_at(), None);
    c.touch(Timestamp { secs: 5, nanos: 0 });
    assert_eq!(c.updated_at(), Timestamp { secs: 5, nanos: 0 });
    assert_eq!(c.created_at(), Timestamp { secs: 1, nanos: 0 });
}

#[test]
fn written_file_names_list_back_their_ids() {
    for id in ["user-123", "a", "X_9"] {
        assert!(Collection::validate_document_id(id).is_ok());
        let file = format!("{}.json", id);
        assert_eq!(Collection::document_id_from_file_name(&file, false), Some(id.to_string()));
    }
}

#[test]
fn update_preparation() {
    let c = coll("users");
    let existing = doc("u1", vec![("age", num("30", 30.0)), ("name", JsonValue::String("Alice".to_string()))]);
    let update = JsonValue::Object(vec![("age".to_string(), num("31", 31.0))]);
    match c.prepare_update("u1", Some(&existing), update) {
        Ok(JsonValue::Object(m)) => {
            assert_eq!(m.len(), 2);
            assert_eq!(m[0].0, "age");
            assert!(matches!(&m[0].1, JsonValue::Number(n) if n.text == "31"));
            assert!(matches!(&m[1].1, JsonValue::String(s) if s == "Alice"));
        },
        _ => panic!("expected merged data"),
    }
    assert!(matches!(c.prepare_update("u1", None, JsonValue::Null), Err(SentinelError::DocumentNotFound { .. })));
    assert!(matches!(c.prepare_update("u 1", None, JsonValue::Null), Err(SentinelError::InvalidDocumentId { .. })));
}

#[test]
fn bulk_insert_refuses_repeated_ids() {
    let c = coll("users");
    match c.check_bulk_insert(&["a", "b", "a"], &[false, false, false]) {
        Err(SentinelError::DocumentAlreadyExists { id, .. }) => assert_eq!(id, "a"),
        _ => panic!("expected a repeated id"),
    }
    let internal = coll(".keys");
    assert!(internal.check_bulk_insert(&["a", "b"], &[true, true]).is_ok());
    assert!(internal.check_bulk_insert(&["a", "a"], &[false, false]).is_err());
    // Stored documents are reported before repeats.
    match c.check_bulk_insert(&["a", "a", "b"], &[false, false, true]) {
        Err(SentinelError::DocumentAlreadyExists { id, .. }) => assert_eq!(id, "b"),
        _ => panic!("expected the stored document"),
    }
}
