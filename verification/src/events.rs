//! Events that collections emit so that the store and the collection's own
//! counters follow document operations.
use vstd::prelude::*;
use vstd::wrapping::u64_specs::{wrapping_add, wrapping_sub};

verus! {

/// Events emitted by collections to notify the store of metadata changes.
#[derive(Debug, Clone, PartialEq, Eq)]
pub enum StoreEvent {
    /// A new collection was created.
    CollectionCreated {
        /// Name of the collection that was created.
        name: String,
    },
    /// A collection was deleted.
    CollectionDeleted {
        /// Name of the collection that was deleted.
        name: String,
        /// Number of documents that were in the collection.
        document_count: u64,
        /// Total size in bytes of all documents in the collection.
        total_size_bytes: u64,
    },
    /// A document was inserted into a collection.
    DocumentInserted {
        /// Name of the collection.
        collection: String,
        /// Size in bytes of the inserted document.
        size_bytes: u64,
    },
    /// A document was updated in a collection.
    DocumentUpdated {
        /// Name of the collection.
        collection: String,
        /// Size in bytes of the document before the update.
        old_size_bytes: u64,
        /// Size in bytes of the document after the update.
        new_size_bytes: u64,
    },
    /// A document was deleted from a collection.
    DocumentDeleted {
        /// Name of the collection.
        collection: String,
        /// Size in bytes of the deleted document.
        size_bytes: u64,
    },
}

/// Types that can emit store events.
pub trait EventEmitter {
    /// Emit an event to the store.
    fn emit_event(&self, event: StoreEvent);
}

/// The document count and total size that a collection's event processor keeps,
/// and whether they changed since the metadata was last saved. The counters
/// wrap around on overflow, as atomic additions and subtractions do.
#[derive(Debug, Clone, Copy, PartialEq, Eq, Structural)]
pub struct CollectionCounters {
    pub total_documents: u64,
    pub total_size_bytes: u64,
    pub changed: bool,
}

/// The counters after one event: an insert counts one more document and adds its
/// size; an update replaces the old size by the new; a delete counts one document
/// less and takes its size away. Collection events change nothing.
pub open spec fn counters_after(c: CollectionCounters, e: StoreEvent) -> CollectionCounters {
    match e {
        StoreEvent::DocumentInserted { size_bytes, .. } => CollectionCounters {
            total_documents: wrapping_add(c.total_documents, 1),
            total_size_bytes: wrapping_add(c.total_size_bytes, size_bytes),
            changed: true,
        },
        StoreEvent::DocumentUpdated { old_size_bytes, new_size_bytes, .. } => CollectionCounters {
            total_documents: c.total_documents,
            total_size_bytes: wrapping_add(wrapping_sub(c.total_size_bytes, old_size_bytes), new_size_bytes),
            changed: true,
        },
        StoreEvent::DocumentDeleted { size_bytes, .. } => CollectionCounters {
            total_documents: wrapping_sub(c.total_documents, 1),
            total_size_bytes: wrapping_sub(c.total_size_bytes, size_bytes),
            changed: true,
        },
        _ => c,
    }
}

impl CollectionCounters {
    /// Counters of a collection with the given totals and nothing unsaved.
    pub fn new(total_documents: u64, total_size_bytes: u64) -> (r: CollectionCounters)
        ensures
            r.total_documents == total_documents,
            r.total_size_bytes == total_size_bytes,
            !r.changed,
    {
        CollectionCounters { total_documents, total_size_bytes, changed: false }
    }

    /// Applies one event to the counters.
    pub fn apply_event(&mut self, event: &StoreEvent)
        ensures
            *final(self) == counters_after(*old(self), *event),
    {
        match event {
            StoreEvent::DocumentInserted { size_bytes, .. } => {
                self.total_documents = self.total_documents.wrapping_add(1);
                self.total_size_bytes = self.total_size_bytes.wrapping_add(*size_bytes);
                self.changed = true;
            },
            StoreEvent::DocumentUpdated { old_size_bytes, new_size_bytes, .. } => {
                self.total_size_bytes = self.total_size_bytes.wrapping_sub(*old_size_bytes);
                self.total_size_bytes = self.total_size_bytes.wrapping_add(*new_size_bytes);
                self.changed = true;
            },
            StoreEvent::DocumentDeleted { size_bytes, .. } => {
                self.total_documents = self.total_documents.wrapping_sub(1);
                self.total_size_bytes = self.total_size_bytes.wrapping_sub(*size_bytes);
                self.changed = true;
            },
            _ => {},
        }
    }

    /// At a periodic tick: whether the metadata is to be saved now, which is
    /// whenever the counters changed since the last save.
    pub fn save_due(&self) -> (r: bool)
        ensures
            r == self.changed,
    {
        self.changed
    }

    /// Records that the metadata was saved with the current counters.
    pub fn mark_saved(&mut self)
        ensures
            final(self).total_documents == old(self).total_documents,
            final(self).total_size_bytes == old(self).total_size_bytes,
            !final(self).changed,
    {
        self.changed = false;
    }
}

/// Inserting a document and deleting a document of the same size leaves the
/// counts as they were (the counters may wrap, and wrap back).
pub proof fn lemma_insert_then_delete_restores(c: CollectionCounters, collection: String, size: u64)
    ensures
        ({
            let after = counters_after(
                counters_after(c, StoreEvent::DocumentInserted { collection, size_bytes: size }),
                StoreEvent::DocumentDeleted { collection, size_bytes: size },
            );
            after.total_documents == c.total_documents && after.total_size_bytes == c.total_size_bytes
                && after.changed
        }),
{
}

/// Updating a document from one size to another and back leaves the total size as it was.
pub proof fn lemma_update_then_revert_restores(c: CollectionCounters, collection: String, old_size: u64, new_size: u64)
    ensures
        ({
            let after = counters_after(
                counters_after(
                    c,
                    StoreEvent::DocumentUpdated { collection, old_size_bytes: old_size, new_size_bytes: new_size },
                ),
                StoreEvent::DocumentUpdated { collection, old_size_bytes: new_size, new_size_bytes: old_size },
            );
            after.total_documents == c.total_documents && after.total_size_bytes == c.total_size_bytes
        }),
{
}

/// Collection-level events leave the document counters alone.
pub proof fn lemma_collection_events_leave_counters(c: CollectionCounters, e: StoreEvent)
    requires
        e is CollectionCreated || e is CollectionDeleted,
    ensures
        counters_after(c, e) == c,
{
}

/// The counters after a sequence of events, applied in order.
pub open spec fn counters_after_all(c: CollectionCounters, events: Seq<StoreEvent>) -> CollectionCounters
    decreases events.len(),
{
    if events.len() == 0 {
        c
    } else {
        counters_after(counters_after_all(c, events.drop_last()), events.last())
    }
}

/// Inserted documents less deleted ones, over a sequence of events.
pub open spec fn documents_delta(events: Seq<StoreEvent>) -> int
    decreases events.len(),
{
    if events.len() == 0 {
        0
    } else {
        documents_delta(events.drop_last()) + match events.last() {
            StoreEvent::DocumentInserted { .. } => 1int,
            StoreEvent::DocumentDeleted { .. } => -1int,
            _ => 0int,
        }
    }
}

/// Bytes inserted, less bytes deleted, plus each update's new size less its old
/// size, over a sequence of events.
pub open spec fn size_delta(events: Seq<StoreEvent>) -> int
    decreases events.len(),
{
    if events.len() == 0 {
        0
    } else {
        size_delta(events.drop_last()) + match events.last() {
            StoreEvent::DocumentInserted { size_bytes, .. } => size_bytes as int,
            StoreEvent::DocumentUpdated { old_size_bytes, new_size_bytes, .. } => new_size_bytes - old_size_bytes,
            StoreEvent::DocumentDeleted { size_bytes, .. } => -size_bytes,
            _ => 0int,
        }
    }
}

/// The modulus of the counters' wrapping arithmetic.
pub open spec fn counter_modulus() -> int {
    0x1_0000_0000_0000_0000
}

proof fn lemma_wrapping_add_is_mod(x: u64, y: u64)
    ensures
        wrapping_add(x, y) == (x + y) % counter_modulus(),
{
    let m = counter_modulus();
    if x + y > u64::MAX {
        vstd::arithmetic::div_mod::lemma_mod_add_multiples_vanish(x + y - m, m);
        vstd::arithmetic::div_mod::lemma_small_mod((x + y - m) as nat, m as nat);
    } else {
        vstd::arithmetic::div_mod::lemma_small_mod((x + y) as nat, m as nat);
    }
}

proof fn lemma_wrapping_sub_is_mod(x: u64, y: u64)
    ensures
        wrapping_sub(x, y) == (x - y) % counter_modulus(),
{
    let m = counter_modulus();
    if x - y < 0 {
        vstd::arithmetic::div_mod::lemma_mod_add_multiples_vanish(x - y, m);
        vstd::arithmetic::div_mod::lemma_small_mod((x - y + m) as nat, m as nat);
    } else {
        vstd::arithmetic::div_mod::lemma_small_mod((x - y) as nat, m as nat);
    }
}

/// Over any sequence of events, the document count moves by the inserts less the
/// deletes, and the total size by the bytes inserted, less the bytes deleted,
/// plus what the updates added; both wrap around 2^64 as atomic counters do.
/// Collection events change neither.
pub proof fn lemma_counters_after_events(c: CollectionCounters, events: Seq<StoreEvent>)
    ensures
        counters_after_all(c, events).total_documents == (c.total_documents + documents_delta(events))
            % counter_modulus(),
        counters_after_all(c, events).total_size_bytes == (c.total_size_bytes + size_delta(events))
            % counter_modulus(),
    decreases events.len(),
{
    let m = counter_modulus();
    if events.len() == 0 {
        vstd::arithmetic::div_mod::lemma_small_mod(c.total_documents as nat, m as nat);
        vstd::arithmetic::div_mod::lemma_small_mod(c.total_size_bytes as nat, m as nat);
    } else {
        let rest = events.drop_last();
        lemma_counters_after_events(c, rest);
        let p = counters_after_all(c, rest);
        let (d, z) = (c.total_documents + documents_delta(rest), c.total_size_bytes + size_delta(rest));
        match events.last() {
            StoreEvent::DocumentInserted { size_bytes, .. } => {
                lemma_wrapping_add_is_mod(p.total_documents, 1);
                lemma_wrapping_add_is_mod(p.total_size_bytes, size_bytes);
                vstd::arithmetic::div_mod::lemma_add_mod_noop_right(1, d, m);
                vstd::arithmetic::div_mod::lemma_add_mod_noop_right(size_bytes as int, z, m);
            },
            StoreEvent::DocumentDeleted { size_bytes, .. } => {
                lemma_wrapping_sub_is_mod(p.total_documents, 1);
                lemma_wrapping_sub_is_mod(p.total_size_bytes, size_bytes);
                vstd::arithmetic::div_mod::lemma_add_mod_noop_right(-1, d, m);
                vstd::arithmetic::div_mod::lemma_add_mod_noop_right(-size_bytes, z, m);
            },
            StoreEvent::DocumentUpdated { old_size_bytes, new_size_bytes, .. } => {
                let w = wrapping_sub(p.total_size_bytes, old_size_bytes);
                lemma_wrapping_sub_is_mod(p.total_size_bytes, old_size_bytes);
                lemma_wrapping_add_is_mod(w, new_size_bytes);
                vstd::arithmetic::div_mod::lemma_add_mod_noop_right(-old_size_bytes, z, m);
                vstd::arithmetic::div_mod::lemma_add_mod_noop_right(new_size_bytes as int, z - old_size_bytes, m);
                assert(new_size_bytes + (z - old_size_bytes) == z + (new_size_bytes - old_size_bytes));
            },
            _ => {},
        }
    }
}

/// Inserting `n` documents, with no other event, raises the document count by
/// exactly `n` (modulo 2^64).
pub proof fn lemma_inserts_raise_count(c: CollectionCounters, events: Seq<StoreEvent>)
    requires
        forall|i: int| 0 <= i < events.len() ==> #[trigger] events[i] is DocumentInserted,
    ensures
        counters_after_all(c, events).total_documents == (c.total_documents + events.len()) % counter_modulus(),
    decreases events.len(),
{
    lemma_counters_after_events(c, events);
    lemma_inserts_delta(events);
}

proof fn lemma_inserts_delta(events: Seq<StoreEvent>)
    requires
        forall|i: int| 0 <= i < events.len() ==> #[trigger] events[i] is DocumentInserted,
    ensures
        documents_delta(events) == events.len(),
    decreases events.len(),
{
    if events.len() > 0 {
        let rest = events.drop_last();
        assert forall|i: int| 0 <= i < rest.len() implies #[trigger] rest[i] is DocumentInserted by {
            assert(rest[i] == events[i]);
        }
        lemma_inserts_delta(rest);
        assert(events.last() == events[events.len() - 1]);
    }
}

/// Every document event (insert, update or delete) marks the counters changed,
/// so that the next save tick writes the new totals: an insert counts one more
/// document and adds its size, an update takes the old size away and adds the
/// new one, a delete counts one less and takes its size away (modulo 2^64).
pub proof fn lemma_document_events_mark_changed(c: CollectionCounters, e: StoreEvent)
    requires
        e is DocumentInserted || e is DocumentUpdated || e is DocumentDeleted,
    ensures
        counters_after(c, e).changed,
        match e {
            StoreEvent::DocumentInserted { size_bytes, .. } => counters_after(c, e).total_documents == (
            c.total_documents + 1) % counter_modulus() && counters_after(c, e).total_size_bytes == (
            c.total_size_bytes + size_bytes) % counter_modulus(),
            StoreEvent::DocumentUpdated { old_size_bytes, new_size_bytes, .. } => counters_after(
                c,
                e,
            ).total_documents == c.total_documents && counters_after(c, e).total_size_bytes == (
            c.total_size_bytes - old_size_bytes + new_size_bytes) % counter_modulus(),
            StoreEvent::DocumentDeleted { size_bytes, .. } => counters_after(c, e).total_documents == (
            c.total_documents - 1) % counter_modulus() && counters_after(c, e).total_size_bytes == (
            c.total_size_bytes - size_bytes) % counter_modulus(),
            _ => true,
        },
{
    lemma_counters_after_events(c, seq![e]);
    assert(seq![e].drop_last() =~= Seq::<StoreEvent>::empty());
}

/// After any sequence of events the counters are marked changed exactly when
/// they were before or some event of the sequence was a document event.
pub proof fn lemma_changed_after_events(c: CollectionCounters, events: Seq<StoreEvent>)
    ensures
        counters_after_all(c, events).changed <==> (c.changed || exists|i: int|
            0 <= i < events.len() && (#[trigger] events[i] is DocumentInserted || events[i] is DocumentUpdated
                || events[i] is DocumentDeleted)),
    decreases events.len(),
{
    if events.len() > 0 {
        let rest = events.drop_last();
        lemma_changed_after_events(c, rest);
        let n = events.len() - 1;
        assert(events.last() == events[n]);
        if events[n] is DocumentInserted || events[n] is DocumentUpdated || events[n] is DocumentDeleted {
            lemma_document_events_mark_changed(counters_after_all(c, rest), events[n]);
        } else {
            if exists|i: int|
                0 <= i < events.len() && (#[trigger] events[i] is DocumentInserted || events[i] is DocumentUpdated
                    || events[i] is DocumentDeleted) {
                let i = choose|i: int|
                    0 <= i < events.len() && (#[trigger] events[i] is DocumentInserted || events[i] is DocumentUpdated
                        || events[i] is DocumentDeleted);
                assert(rest[i] == events[i]);
            }
            if exists|i: int|
                0 <= i < rest.len() && (#[trigger] rest[i] is DocumentInserted || rest[i] is DocumentUpdated
                    || rest[i] is DocumentDeleted) {
                let i = choose|i: int|
                    0 <= i < rest.len() && (#[trigger] rest[i] is DocumentInserted || rest[i] is DocumentUpdated
                        || rest[i] is DocumentDeleted);
                assert(rest[i] == events[i]);
            }
        }
    }
}

} // verus!
