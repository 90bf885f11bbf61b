use sentinel_dbms::document::{Document, Timestamp};
use sentinel_dbms::json::{JsonNumber, JsonValue};
use sentinel_dbms::query::{page_bounds, project_data, select_documents, Filter, Query, SortOrder, StreamWindow, WindowStep};
use sentinel_dbms::sorting::sort_documents;
use serde_json::Value;

fn j(s: &str) -> Value {
    serde_json::from_str(s).unwrap()
}

fn rank(x: f64) -> i64 {
    if x.is_sign_negative() {
        -((-x).to_bits() as i64)
    } else {
        x.to_bits() as i64
    }
}

fn conv(v: &Value) -> JsonValue {
    match v {
        Value::Null => JsonValue::Null,
        Value::Bool(b) => JsonValue::Bool(*b),
        Value::Number(n) => JsonValue::Number(JsonNumber { text: n.to_string(), float_rank: n.as_f64().map(rank) }),
        Value::String(s) => JsonValue::String(s.clone()),
        Value::Array(a) => JsonValue::Array(a.iter().map(conv).collect()),
        Value::Object(m) => JsonValue::Object(m.iter().map(|(k, x)| (k.clone(), conv(x))).collect()),
    }
}

fn back(v: &JsonValue) -> Value {
    match v {
        JsonValue::Null => Value::Null,
        JsonValue::Bool(b) => Value::Bool(*b),
        JsonValue::Number(n) => serde_json::from_str(&n.text).unwrap(),
        JsonValue::String(s) => Value::String(s.clone()),
        JsonValue::Array(a) => Value::Array(a.iter().map(back).collect()),
        JsonValue::Object(m) => Value::Object(m.iter().map(|(k, x)| (k.clone(), back(x))).collect()),
    }
}

fn doc(id: &str, data: Value) -> Document {
    Document::new(id.to_string(), conv(&data), "h".to_string(), String::new(), Timestamp { secs: 1, nanos: 0 })
}

fn ids(docs: &[Document]) -> Vec<String> {
    docs.iter().map(|d| d.id.clone()).collect()
}

fn query() -> Query {
    Query { filters: vec![], sort: None, limit: None, offset: None, projection: None }
}

#[test]
fn page_bounds_clamp_to_length() {
    assert_eq!(page_bounds(10, None, None), (0, 10));
    assert_eq!(page_bounds(10, Some(3), None), (3, 10));
    assert_eq!(page_bounds(10, Some(3), Some(4)), (3, 7));
    assert_eq!(page_bounds(10, Some(8), Some(4)), (8, 10));
    assert_eq!(page_bounds(10, Some(12), Some(4)), (10, 10));
    assert_eq!(page_bounds(10, Some(2), Some(usize::MAX)), (2, 10));
}

#[test]
fn streaming_window_yields_the_page() {
    let mut w = StreamWindow::new(Some(2), Some(3));
    let steps: Vec<WindowStep> = (0..7).map(|_| w.step()).collect();
    assert_eq!(
        steps,
        vec![
            WindowStep::Skip,
            WindowStep::Skip,
            WindowStep::Yield,
            WindowStep::Yield,
            WindowStep::Yield,
            WindowStep::Stop,
            WindowStep::Stop
        ]
    );
    let (start, end) = page_bounds(7, Some(2), Some(3));
    for (i, s) in steps.iter().enumerate() {
        assert_eq!(*s == WindowStep::Yield, start <= i && i < end);
    }
    let mut none = StreamWindow::new(None, Some(0));
    assert_eq!(none.step(), WindowStep::Stop);
}

#[test]
fn sort_is_stable_and_puts_missing_first() {
    let docs = vec![
        doc("a", j(r#"{"age": 30}"#)),
        doc("b", j(r#"{"name": "x"}"#)),
        doc("c", j(r#"{"age": 25}"#)),
        doc("d", j(r#"{"age": 30}"#)),
        doc("e", j(r#"{"age": "old"}"#)),
    ];
    let asc = sort_documents(docs, "age", SortOrder::Ascending);
    assert_eq!(ids(&asc), vec!["b", "c", "a", "d", "e"]);
    let desc = sort_documents(asc, "age", SortOrder::Descending);
    assert_eq!(ids(&desc), vec!["e", "a", "d", "c", "b"]);
}

#[test]
fn query_with_sort_limit_offset() {
    let docs: Vec<Document> = (0..5).map(|i| doc(&format!("doc-{}", i), j(&format!(r#"{{"id": {}}}"#, i)))).collect();
    let mut q = query();
    q.sort = Some(("id".to_string(), SortOrder::Descending));
    q.offset = Some(1);
    q.limit = Some(2);
    let r = select_documents(docs, &q);
    assert_eq!(ids(&r), vec!["doc-3", "doc-2"]);
}

#[test]
fn test_query_with_projection() {
    let docs: Vec<Document> = (0..3)
        .map(|i| {
            doc(
                &format!("doc-{}", i),
                j(&format!(r#"{{ "id": {}, "name": "User{}", "email": "user{}@example.com", "age": 30 }}"#, i, i, i)),
            )
        })
        .collect();
    let mut q = query();
    q.projection = Some(vec!["id".to_string(), "name".to_string()]);
    let r = select_documents(docs, &q);
    assert_eq!(r.len(), 3);
    for d in &r {
        let v = back(&d.data);
        assert!(v.get("id").is_some());
        assert!(v.get("name").is_some());
        assert!(v.get("email").is_none());
        assert!(v.get("age").is_none());
        assert_eq!(d.hash, "h");
    }
}

#[test]
fn test_query_complex() {
    let data = vec![
        ("doc1", j(r#"{ "name": "Alice", "age": 25, "city": "NYC", "active": true }"#)),
        ("doc2", j(r#"{ "name": "Bob", "age": 30, "city": "LA", "active": true }"#)),
        ("doc3", j(r#"{ "name": "Charlie", "age": 35, "city": "NYC", "active": false }"#)),
        ("doc4", j(r#"{ "name": "Diana", "age": 28, "city": "NYC", "active": true }"#)),
        ("doc5", j(r#"{ "name": "Eve", "age": 40, "city": "LA", "active": false }"#)),
    ];
    let docs: Vec<Document> = data.iter().map(|(id, v)| doc(id, v.clone())).collect();
    let q = Query {
        filters: vec![
            Filter::Equals("active".to_string(), conv(&j(r#"true"#))),
            Filter::Equals("city".to_string(), conv(&j(r#""NYC""#))),
            Filter::GreaterOrEqual("age".to_string(), conv(&j(r#"26"#))),
        ],
        sort: Some(("age".to_string(), SortOrder::Ascending)),
        limit: Some(2),
        offset: None,
        projection: Some(vec!["name".to_string(), "age".to_string()]),
    };
    let r = select_documents(docs, &q);
    assert_eq!(r.len(), 1);
    assert_eq!(back(&r[0].data), j(r#"{"name": "Diana", "age": 28}"#));
}

#[test]
fn projection_of_non_object_is_empty() {
    let p = project_data(&conv(&j(r#"[1, 2]"#)), &["a".to_string()]);
    assert_eq!(back(&p), j(r#"{}"#));
    let p = project_data(&conv(&j(r#"{"b": 1, "a": 2, "c": 3}"#)), &["c".to_string(), "a".to_string(), "z".to_string()]);
    assert_eq!(back(&p), j(r#"{"a": 2, "c": 3}"#));
}
