use sentinel_dbms::collection::Collection;
use sentinel_dbms::document::Timestamp;
use sentinel_dbms::events::{CollectionCounters, StoreEvent};

#[test]
fn test_store_event_debug() {
    let event = StoreEvent::DocumentInserted { collection: "users".to_string(), size_bytes: 512 };
    let debug_str = format!("{:?}", event);
    assert!(debug_str.contains("DocumentInserted"));
    assert!(debug_str.contains("users"));
    assert!(debug_str.contains("512"));
}

#[test]
fn counters_follow_insert_update_delete() {
    let mut c = CollectionCounters::new(2, 100);
    c.apply_event(&StoreEvent::DocumentInserted { collection: "c".to_string(), size_bytes: 50 });
    assert_eq!((c.total_documents, c.total_size_bytes, c.changed), (3, 150, true));
    c.apply_event(&StoreEvent::DocumentUpdated { collection: "c".to_string(), old_size_bytes: 50, new_size_bytes: 80 });
    assert_eq!((c.total_documents, c.total_size_bytes), (3, 180));
    c.apply_event(&StoreEvent::DocumentDeleted { collection: "c".to_string(), size_bytes: 80 });
    assert_eq!((c.total_documents, c.total_size_bytes), (2, 100));
    assert!(c.save_due());
    c.mark_saved();
    assert!(!c.save_due());
    assert_eq!((c.total_documents, c.total_size_bytes), (2, 100));
}

#[test]
fn counters_wrap_on_underflow() {
    let mut c = CollectionCounters::new(0, 10);
    c.apply_event(&StoreEvent::DocumentDeleted { collection: "c".to_string(), size_bytes: 20 });
    assert_eq!(c.total_documents, u64::MAX);
    assert_eq!(c.total_size_bytes, u64::MAX - 9);
    c.apply_event(&StoreEvent::DocumentInserted { collection: "c".to_string(), size_bytes: 20 });
    assert_eq!((c.total_documents, c.total_size_bytes), (0, 10));
}

#[test]
fn collection_events_leave_counters() {
    let mut c = CollectionCounters::new(7, 70);
    c.apply_event(&StoreEvent::CollectionCreated { name: "x".to_string() });
    c.apply_event(&StoreEvent::CollectionDeleted { name: "x".to_string(), document_count: 3, total_size_bytes: 9 });
    assert_eq!((c.total_documents, c.total_size_bytes, c.changed), (7, 70, false));
}

#[test]
fn collection_processes_events_and_builds_them() {
    let t = Timestamp { secs: 10, nanos: 5 };
    let mut coll = Collection::new("users".to_string(), false, t);
    let e = coll.insert_event(42);
    assert_eq!(e, StoreEvent::DocumentInserted { collection: "users".to_string(), size_bytes: 42 });
    coll.process_event(&e);
    assert_eq!(coll.total_documents(), 1);
    assert_eq!(coll.total_size_bytes(), 42);
    let u = coll.update_event(42, 50);
    assert_eq!(u, StoreEvent::DocumentUpdated { collection: "users".to_string(), old_size_bytes: 42, new_size_bytes: 50 });
    coll.process_event(&u);
    assert_eq!(coll.total_size_bytes(), 50);
    let d = coll.delete_event(50);
    coll.process_event(&d);
    assert_eq!(coll.count().unwrap(), 0);
    assert_eq!(coll.total_size_bytes(), 0);
    assert_eq!(coll.created_at(), t);
}

#[test]
fn save_tick_saves_only_after_changes() {
    let mut coll = Collection::new("users".to_string(), false, Timestamp { secs: 1, nanos: 0 });
    assert_eq!(coll.on_save_tick(), None);
    let e = coll.insert_event(10);
    coll.process_event(&e);
    assert_eq!(coll.on_save_tick(), Some((1, 10)));
    assert_eq!(coll.updated_at(), Timestamp { secs: 1, nanos: 0 });
    coll.save_finished(false);
    assert_eq!(coll.on_save_tick(), Some((1, 10)));
    coll.save_finished(true);
    assert_eq!(coll.on_save_tick(), None);
}

#[test]
fn counters_over_a_sequence_of_events() {
    let mut c = CollectionCounters::new(10, 1000);
    let events = vec![
        StoreEvent::DocumentInserted { collection: "c".to_string(), size_bytes: 100 },
        StoreEvent::DocumentInserted { collection: "c".to_string(), size_bytes: 50 },
        StoreEvent::CollectionCreated { name: "d".to_string() },
        StoreEvent::DocumentUpdated { collection: "c".to_string(), old_size_bytes: 100, new_size_bytes: 30 },
        StoreEvent::DocumentDeleted { collection: "c".to_string(), size_bytes: 50 },
    ];
    for e in &events {
        c.apply_event(e);
    }
    // 10 + 2 inserts - 1 delete; 1000 + 100 + 50 + (30 - 100) - 50.
    assert_eq!(c.total_documents, 11);
    assert_eq!(c.total_size_bytes, 1030);
}

#[test]
fn n_inserts_raise_the_count_by_n() {
    let mut c = CollectionCounters::new(3, 0);
    for i in 0..7u64 {
        c.apply_event(&StoreEvent::DocumentInserted { collection: "c".to_string(), size_bytes: i });
    }
    assert_eq!(c.total_documents, 10);
    assert_eq!(c.total_size_bytes, 21);
}
