//! The state of a collection and the decisions of its document operations.
//!
//! Reading and writing files, the write-ahead log and the cryptography are the
//! caller's work; a collection here keeps its name, timestamps and counters,
//! and decides what each operation does with what the caller found.
use vstd::prelude::*;

use crate::document::{Document, Timestamp};
use crate::error::SentinelError;
use crate::events::{counters_after, CollectionCounters, StoreEvent};
use crate::filtering::{all_filters_hold, matches_filters};
use crate::json::{get_field, get_field_value, insert_member, json_merge, lemma_object_view, members_merge, members_spec, JsonNumber, JsonSpec, JsonValue};
use crate::query::{Aggregation, Filter};
use crate::validation::{is_id_char, valid_document_id, validate_document_id};
use crate::verification::{
    computed_text, document_verdict, hash_checked, hash_computation_error, hash_mismatch_fails, hash_passes,
    hash_verdict, hash_verdict_ok, signature_check_errs, signature_check_needed, signature_check_needed_spec,
    signature_fails, signature_verdict, signature_verdict_ok, validity_error, SignatureCheck, VerificationMode,
    VerificationOptions,
};

verus! {

/// A collection of documents.
pub struct Collection {
    /// The collection's name: the last component of its directory's path.
    pub name: String,
    /// Whether the collection signs its documents.
    pub has_signing_key: bool,
    /// When the collection was created.
    pub created_at: Timestamp,
    /// When the collection was last updated.
    pub updated_at: Timestamp,
    /// When the collection was last checkpointed.
    pub last_checkpoint_at: Option<Timestamp>,
    /// Document count and total size, kept by the event processor.
    pub counters: CollectionCounters,
    /// Whether the collection is replaying its write-ahead log.
    pub recovery_mode: bool,
}

/// The name begins with a dot: a collection of the store's own bookkeeping.
pub open spec fn is_internal_name(name: Seq<char>) -> bool {
    name.len() > 0 && name[0] == '.'
}

/// `s` ends with `.json`.
pub open spec fn ends_with_json(s: Seq<char>) -> bool {
    s.len() >= 5 && s.subrange(s.len() - 5, s.len() as int) == seq!['.', 'j', 's', 'o', 'n']
}

fn starts_with_dot(s: &str) -> (r: bool)
    ensures
        r == is_internal_name(s@),
{
    s.unicode_len() > 0 && s.get_char(0) == '.'
}

/// The numeric value of a field, for aggregation: the field's number when it has a
/// double value.
pub open spec fn numeric_value(data: JsonSpec, field: Seq<char>) -> Option<(Seq<char>, Option<i64>)> {
    match get_field(data, field) {
        Some(JsonSpec::Number(t, r)) => if r is Some {
            Some((t, r))
        } else {
            None
        },
        _ => None,
    }
}

impl Collection {
    /// A collection with the given name and creation time, empty and unsaved.
    pub fn new(name: String, has_signing_key: bool, created_at: Timestamp) -> (r: Collection)
        ensures
            r.name@ == name@,
            r.has_signing_key == has_signing_key,
            r.created_at == created_at,
            r.updated_at == created_at,
            r.last_checkpoint_at is None,
            r.counters.total_documents == 0,
            r.counters.total_size_bytes == 0,
            !r.counters.changed,
            !r.recovery_mode,
    {
        Collection {
            name,
            has_signing_key,
            created_at,
            updated_at: created_at,
            last_checkpoint_at: None,
            counters: CollectionCounters::new(0, 0),
            recovery_mode: false,
        }
    }

    /// Returns the name of the collection.
    pub fn name(&self) -> (r: &str)
        ensures
            r@ == self.name@,
    {
        self.name.as_str()
    }

    /// Returns the creation timestamp of the collection.
    pub fn created_at(&self) -> (r: Timestamp)
        ensures
            r == self.created_at,
    {
        self.created_at
    }

    /// Returns the last update timestamp of the collection.
    pub fn updated_at(&self) -> (r: Timestamp)
        ensures
            r == self.updated_at,
    {
        self.updated_at
    }

    /// Returns the last checkpoint timestamp of the collection, if any.
    pub fn last_checkpoint_at(&self) -> (r: Option<Timestamp>)
        ensures
            r == self.last_checkpoint_at,
    {
        self.last_checkpoint_at
    }

    /// Returns the total number of documents in the collection.
    pub fn total_documents(&self) -> (r: u64)
        ensures
            r == self.counters.total_documents,
    {
        self.counters.total_documents
    }

    /// Returns the total size of all documents in the collection in bytes.
    pub fn total_size_bytes(&self) -> (r: u64)
        ensures
            r == self.counters.total_size_bytes,
    {
        self.counters.total_size_bytes
    }

    /// The number of documents in the collection.
    pub fn count(&self) -> (r: Result<u64, SentinelError>)
        ensures
            r matches Ok(n) && n == self.counters.total_documents,
    {
        Ok(self.counters.total_documents)
    }

    /// Records an update of the collection at `now`.
    pub fn touch(&mut self, now: Timestamp)
        ensures
            final(self).updated_at == now,
            final(self).name@ == old(self).name@,
            final(self).has_signing_key == old(self).has_signing_key,
            final(self).created_at == old(self).created_at,
            final(self).last_checkpoint_at == old(self).last_checkpoint_at,
            final(self).counters == old(self).counters,
            final(self).recovery_mode == old(self).recovery_mode,
    {
        self.updated_at = now;
    }

    /// At a periodic save tick: when the counters changed since the last save,
    /// the document count and total size to write to the metadata; otherwise
    /// none. Nothing changes: the counters stay marked changed until
    /// `save_finished` reports a successful write.
    pub fn on_save_tick(&self) -> (r: Option<(u64, u64)>)
        ensures
            self.counters.changed ==> r == Some((self.counters.total_documents, self.counters.total_size_bytes)),
            !self.counters.changed ==> r is None,
    {
        if self.counters.save_due() {
            Some((self.counters.total_documents, self.counters.total_size_bytes))
        } else {
            None
        }
    }

    /// After the metadata write of a save tick: a successful write marks the
    /// counters saved; a failed read, parse or write leaves them marked changed,
    /// so that the next tick tries again.
    pub fn save_finished(&mut self, succeeded: bool)
        ensures
            final(self).counters.changed == (old(self).counters.changed && !succeeded),
            final(self).counters.total_documents == old(self).counters.total_documents,
            final(self).counters.total_size_bytes == old(self).counters.total_size_bytes,
            final(self).name == old(self).name,
            final(self).created_at == old(self).created_at,
            final(self).updated_at == old(self).updated_at,
            final(self).last_checkpoint_at == old(self).last_checkpoint_at,
            final(self).recovery_mode == old(self).recovery_mode,
            final(self).has_signing_key == old(self).has_signing_key,
    {
        if succeeded {
            self.counters.mark_saved();
        }
    }

    /// Processes one event of the collection's event channel.
    pub fn process_event(&mut self, event: &StoreEvent)
        ensures
            final(self).counters == counters_after(old(self).counters, *event),
            final(self).name@ == old(self).name@,
            final(self).created_at == old(self).created_at,
            final(self).updated_at == old(self).updated_at,
            final(self).last_checkpoint_at == old(self).last_checkpoint_at,
            final(self).recovery_mode == old(self).recovery_mode,
            final(self).has_signing_key == old(self).has_signing_key,
    {
        self.counters.apply_event(event);
    }

    /// Validates a document ID (see `valid_document_id`).
    pub fn validate_document_id(id: &str) -> (r: Result<(), SentinelError>)
        ensures
            r is Ok <==> valid_document_id(id@),
            r matches Err(e) ==> (e matches SentinelError::InvalidDocumentId { id: x } && x@ == id@),
    {
        validate_document_id(id)
    }

    /// Whether an operation writes to the write-ahead log: when the collection has
    /// one and is not replaying it.
    pub fn writes_to_wal(&self, has_wal: bool) -> (r: bool)
        ensures
            r == (has_wal && !self.recovery_mode),
    {
        has_wal && !self.recovery_mode
    }

    /// The checks before an insert, given whether a document with the ID exists:
    /// the ID must be valid, and must be new unless the collection is internal.
    pub fn check_insert(&self, id: &str, exists: bool) -> (r: Result<(), SentinelError>)
        ensures
            !valid_document_id(id@) ==> (r matches Err(SentinelError::InvalidDocumentId { id: x }) && x@ == id@),
            valid_document_id(id@) ==> (r is Ok <==> !(exists && !is_internal_name(self.name@))),
            valid_document_id(id@) && r is Err ==> (r matches Err(
                SentinelError::DocumentAlreadyExists { id: x, collection: c },
            ) && x@ == id@ && c@ == self.name@),
    {
        validate_document_id(id)?;
        if exists && !starts_with_dot(self.name.as_str()) {
            return Err(SentinelError::DocumentAlreadyExists { id: id.to_owned(), collection: self.name.clone() });
        }
        Ok(())
    }

    /// The checks before a bulk insert, given for each document whether it exists:
    /// first every ID must be valid (the first invalid one is the error); then no
    /// document may exist already unless the collection is internal (the first
    /// existing one is the error); then no ID may come twice in the batch (the
    /// first repeat is the error, as `DocumentAlreadyExists`).
    pub fn check_bulk_insert(&self, ids: &[&str], exists: &[bool]) -> (r: Result<(), SentinelError>)
        requires
            ids@.len() == exists@.len(),
        ensures
            r is Ok <==> (forall|i: int| 0 <= i < ids@.len() ==> valid_document_id((#[trigger] ids@[i])@)) && (
            forall|i: int| 0 <= i < ids@.len() ==> !#[trigger] stored_conflict(exists@, self.name@, i)) && (forall|i: int|
                0 <= i < ids@.len() ==> !#[trigger] repeated_id(ids@, i)),
            r matches Err(SentinelError::InvalidDocumentId { id: x }) ==> exists|i: int|
                0 <= i < ids@.len() && !valid_document_id((#[trigger] ids@[i])@) && x@ == ids@[i]@ && forall|k: int|
                    0 <= k < i ==> valid_document_id((#[trigger] ids@[k])@),
            r matches Err(SentinelError::DocumentAlreadyExists { id: x, collection: c }) ==> c@ == self.name@ && (
            forall|k: int| 0 <= k < ids@.len() ==> valid_document_id((#[trigger] ids@[k])@)) && ((exists|i: int|
                0 <= i < ids@.len() && #[trigger] stored_conflict(exists@, self.name@, i) && x@ == ids@[i]@ && forall|
                    k: int,
                | 0 <= k < i ==> !#[trigger] stored_conflict(exists@, self.name@, k)) || ((forall|k: int|
                0 <= k < ids@.len() ==> !#[trigger] stored_conflict(exists@, self.name@, k)) && exists|i: int|
                0 <= i < ids@.len() && #[trigger] repeated_id(ids@, i) && x@ == ids@[i]@ && forall|k: int|
                    0 <= k < i ==> !#[trigger] repeated_id(ids@, k))),
            r matches Err(e) ==> e is InvalidDocumentId || e is DocumentAlreadyExists,
    {
        let mut i: usize = 0;
        while i < ids.len()
            invariant
                i <= ids@.len(),
                forall|k: int| 0 <= k < i ==> valid_document_id((#[trigger] ids@[k])@),
            decreases ids@.len() - i,
        {
            match validate_document_id(ids[i]) {
                Ok(()) => {},
                Err(e) => {
                    assert(!valid_document_id(ids@[i as int]@));
                    return Err(e);
                },
            }
            i += 1;
        }
        let internal = starts_with_dot(self.name.as_str());
        let mut j: usize = 0;
        while j < exists.len()
            invariant
                j <= exists@.len(),
                ids@.len() == exists@.len(),
                internal == is_internal_name(self.name@),
                forall|k: int| 0 <= k < ids@.len() ==> valid_document_id((#[trigger] ids@[k])@),
                forall|k: int| 0 <= k < j ==> !#[trigger] stored_conflict(exists@, self.name@, k),
            decreases exists@.len() - j,
        {
            if exists[j] && !internal {
                let x = ids[j].to_owned();
                assert(stored_conflict(exists@, self.name@, j as int));
                return Err(SentinelError::DocumentAlreadyExists { id: x, collection: self.name.clone() });
            }
            j += 1;
        }
        let mut j: usize = 0;
        while j < ids.len()
            invariant
                j <= ids@.len(),
                ids@.len() == exists@.len(),
                forall|k: int| 0 <= k < ids@.len() ==> valid_document_id((#[trigger] ids@[k])@),
                forall|k: int| 0 <= k < ids@.len() ==> !#[trigger] stored_conflict(exists@, self.name@, k),
                forall|k: int| 0 <= k < j ==> !#[trigger] repeated_id(ids@, k),
            decreases ids@.len() - j,
        {
            let mut repeated = false;
            let mut k: usize = 0;
            let current = ids[j].to_owned();
            while k < j
                invariant
                    k <= j,
                    j < ids@.len(),
                    current@ == ids@[j as int]@,
                    repeated <==> exists|m: int| 0 <= m < k && (#[trigger] ids@[m])@ == ids@[j as int]@,
                decreases j - k,
            {
                if ids[k].to_owned() == current {
                    repeated = true;
                }
                proof {
                    if repeated {
                        let m = choose|m: int| 0 <= m < k + 1 && (#[trigger] ids@[m])@ == ids@[j as int]@;
                    }
                }
                k += 1;
            }
            if repeated {
                assert(repeated_id(ids@, j as int));
                return Err(SentinelError::DocumentAlreadyExists { id: current, collection: self.name.clone() });
            }
            assert(!repeated_id(ids@, j as int));
            j += 1;
        }
        Ok(())
    }

    /// The data an update writes, given the document as it is stored (if it is):
    /// an invalid ID is refused first, a missing document is not found, and
    /// otherwise the new data is merged into the stored data.
    pub fn prepare_update(&self, id: &str, existing: Option<&Document>, data: JsonValue) -> (r: Result<JsonValue, SentinelError>)
        ensures
            !valid_document_id(id@) ==> (r matches Err(SentinelError::InvalidDocumentId { id: x }) && x@ == id@),
            valid_document_id(id@) && existing is None ==> (r matches Err(
                SentinelError::DocumentNotFound { id: x, collection: c },
            ) && x@ == id@ && c@ == self.name@),
            valid_document_id(id@) && existing is Some ==> (r matches Ok(v) && v@ == json_merge(
                existing.unwrap().data@,
                data@,
            )),
    {
        validate_document_id(id)?;
        match existing {
            None => Err(self.document_not_found(id)),
            Some(doc) => Ok(Self::merge_json_values(&doc.data, data)),
        }
    }

    /// Whether a document's file holds a document: it exists and is not empty (an
    /// empty file is what a lock on a missing document leaves behind).
    pub fn document_present(exists: bool, size_bytes: u64) -> (r: bool)
        ensures
            r == (exists && size_bytes > 0),
    {
        exists && size_bytes > 0
    }

    /// The result of an upsert, given whether the document existed: `true` when
    /// it was inserted, `false` when it was updated.
    pub fn upsert_inserted(existed: bool) -> (r: bool)
        ensures
            r == !existed,
    {
        !existed
    }

    /// The error of an update of a document that does not exist.
    pub fn document_not_found(&self, id: &str) -> (r: SentinelError)
        ensures
            r matches SentinelError::DocumentNotFound { id: x, collection: c } && x@ == id@ && c@ == self.name@,
    {
        SentinelError::DocumentNotFound { id: id.to_owned(), collection: self.name.clone() }
    }

    /// Merges two JSON values: two objects are merged with the new members taking
    /// precedence; in every other case the new value replaces the existing one.
    pub fn merge_json_values(existing: &JsonValue, new: JsonValue) -> (r: JsonValue)
        ensures
            r@ == json_merge(existing@, new@),
    {
        match (existing, &new) {
            (JsonValue::Object(existing_map), JsonValue::Object(new_map)) => {
                let mut merged: Vec<(String, JsonValue)> = Vec::new();
                let mut i: usize = 0;
                while i < existing_map.len()
                    invariant
                        i <= existing_map@.len(),
                        merged@.len() == i,
                        members_spec(merged@) == members_spec(existing_map@).take(i as int),
                    decreases existing_map@.len() - i,
                {
                    let k = existing_map[i].0.clone();
                    let v = existing_map[i].1.clone_value();
                    merged.push((k, v));
                    proof {
                        assert(members_spec(merged@) =~= members_spec(existing_map@).take(i + 1));
                    }
                    i += 1;
                }
                assert(members_spec(existing_map@).take(i as int) =~= members_spec(existing_map@));
                let ghost ns = members_spec(new_map@);
                assert(ns.skip(0) =~= ns);
                let mut j: usize = 0;
                while j < new_map.len()
                    invariant
                        j <= new_map@.len(),
                        ns == members_spec(new_map@),
                        members_merge(members_spec(existing_map@), ns) == members_merge(
                            members_spec(merged@),
                            ns.skip(j as int),
                        ),
                    decreases new_map@.len() - j,
                {
                    let ghost before = members_spec(merged@);
                    let k = new_map[j].0.clone();
                    let v = new_map[j].1.clone_value();
                    insert_member(&mut merged, k, v);
                    proof {
                        assert(ns.skip(j as int).drop_first() =~= ns.skip(j + 1));
                        assert(ns.skip(j as int)[0] == ns[j as int]);
                    }
                    j += 1;
                }
                proof {
                    assert(ns.skip(j as int).len() == 0);
                    lemma_object_view(merged);
                    lemma_object_view(*existing_map);
                    lemma_object_view(*new_map);
                }
                JsonValue::Object(merged)
            },
            _ => new,
        }
    }

    /// Extracts the numeric value of a document field for aggregation: the field's
    /// number when it has a double value.
    pub fn extract_numeric_value(doc: &Document, field: &str) -> (r: Option<JsonNumber>)
        ensures
            match r {
                Some(n) => numeric_value(doc.data@, field@) == Some(n@),
                None => numeric_value(doc.data@, field@) is None,
            },
    {
        match get_field_value(&doc.data, field) {
            Some(JsonValue::Number(n)) => {
                if n.float_rank.is_some() {
                    Some(n.copy_number())
                } else {
                    None
                }
            },
            _ => None,
        }
    }

    /// The document ID that a directory entry names, if it names one: a file
    /// (not a directory) called `<id>.json` whose name does not begin with a dot.
    pub fn document_id_from_file_name(file_name: &str, is_dir: bool) -> (r: Option<String>)
        ensures
            r is Some <==> (!is_dir && ends_with_json(file_name@) && !is_internal_name(file_name@)),
            r matches Some(id) ==> id@ == file_name@.subrange(0, file_name@.len() - 5),
    {
        if is_dir {
            return None;
        }
        let n = file_name.unicode_len();
        if n < 5 {
            return None;
        }
        let c0 = file_name.get_char(n - 5);
        let c1 = file_name.get_char(n - 4);
        let c2 = file_name.get_char(n - 3);
        let c3 = file_name.get_char(n - 2);
        let c4 = file_name.get_char(n - 1);
        let is_json = c0 == '.' && c1 == 'j' && c2 == 's' && c3 == 'o' && c4 == 'n';
        proof {
            let tail = file_name@.subrange(n - 5, n as int);
            if is_json {
                assert(tail =~= seq!['.', 'j', 's', 'o', 'n']);
            } else {
                if tail == seq!['.', 'j', 's', 'o', 'n'] {
                    assert(tail[0] == c0 && tail[1] == c1 && tail[2] == c2 && tail[3] == c3 && tail[4] == c4);
                }
            }
        }
        if !is_json || starts_with_dot(file_name) {
            return None;
        }
        let id = file_name.substring_char(0, n - 5);
        Some(id.to_owned())
    }

    /// For an aggregation: among the documents that match every filter, how many
    /// there are (saturating), and the numeric values of `field` (when the
    /// aggregation has a field) in document order.
    pub fn aggregation_inputs(docs: &[Document], filters: &[&Filter], field: Option<&str>) -> (r: (usize, Vec<JsonNumber>))
        ensures
            r.0 == min_usize(matching_count(docs@, filters@)),
            r.1@.map_values(|n: JsonNumber| n@) == match field {
                Some(f) => numeric_values(docs@, filters@, f@),
                None => Seq::empty(),
            },
    {
        let mut count: usize = 0;
        let mut values: Vec<JsonNumber> = Vec::new();
        let mut i: usize = 0;
        while i < docs.len()
            invariant
                i <= docs@.len(),
                count == min_usize(matching_count(docs@.take(i as int), filters@)),
                values@.map_values(|n: JsonNumber| n@) == match field {
                    Some(f) => numeric_values(docs@.take(i as int), filters@, f@),
                    None => Seq::empty(),
                },
            decreases docs@.len() - i,
        {
            proof {
                assert(docs@.take(i + 1).drop_last() =~= docs@.take(i as int));
            }
            if matches_filters(&docs[i], filters) {
                count = count.saturating_add(1);
                match field {
                    Some(f) => {
                        match Self::extract_numeric_value(&docs[i], f) {
                            Some(n) => {
                                values.push(n);
                            },
                            None => {},
                        }
                    },
                    None => {},
                }
            }
            proof {
                assert(values@.map_values(|n: JsonNumber| n@) =~= match field {
                    Some(f) => numeric_values(docs@.take(i + 1), filters@, f@),
                    None => Seq::empty(),
                });
            }
            i += 1;
        }
        assert(docs@.take(i as int) =~= docs@);
        (count, values)
    }
}

/// In a bulk insert, document `i` exists already in a collection that is not internal.
pub open spec fn stored_conflict(exists: Seq<bool>, name: Seq<char>, i: int) -> bool {
    exists[i] && !is_internal_name(name)
}

/// In a bulk insert, the ID of document `i` came earlier in the batch.
pub open spec fn repeated_id(ids: Seq<&str>, i: int) -> bool {
    exists|m: int| 0 <= m < i && (#[trigger] ids[m])@ == ids[i]@
}

/// The smaller of a count and the largest `usize`.
pub open spec fn min_usize(n: nat) -> nat {
    if n > usize::MAX {
        usize::MAX as nat
    } else {
        n
    }
}

/// The number of documents that match every filter.
pub open spec fn matching_count(docs: Seq<Document>, filters: Seq<&Filter>) -> nat
    decreases docs.len(),
{
    if docs.len() == 0 {
        0
    } else {
        matching_count(docs.drop_last(), filters) + if all_filters_hold(docs.last().data@, filters) {
            1nat
        } else {
            0nat
        }
    }
}

/// The numeric values of `field` among the documents that match every filter, in order.
pub open spec fn numeric_values(docs: Seq<Document>, filters: Seq<&Filter>, field: Seq<char>) -> Seq<(Seq<char>, Option<i64>)>
    decreases docs.len(),
{
    if docs.len() == 0 {
        Seq::empty()
    } else {
        let rest = numeric_values(docs.drop_last(), filters, field);
        if all_filters_hold(docs.last().data@, filters) {
            match numeric_value(docs.last().data@, field) {
                Some(n) => rest.push(n),
                None => rest,
            }
        } else {
            rest
        }
    }
}

impl Document {
    /// Whether the document carries a signature.
    pub fn has_signature(&self) -> (r: bool)
        ensures
            r == (self.signature@.len() > 0),
    {
        self.signature.as_str().unicode_len() > 0
    }
}

/// What an aggregation yields before any floating-point arithmetic.
#[derive(Debug)]
pub enum AggregationResult {
    /// The number of matching documents.
    Count(usize),
    /// The values of the field among the matching documents, to be summed.
    Sum(Vec<JsonNumber>),
    /// The values of the field among the matching documents, to be averaged
    /// (no average when there is none).
    Avg(Vec<JsonNumber>),
    /// The smallest or largest value of the field, if there is one.
    Extreme(Option<JsonNumber>),
}

/// The double value's rank of a number (0 for one without a double value).
pub open spec fn rank_of(n: (Seq<char>, Option<i64>)) -> i64 {
    match n.1 {
        Some(r) => r,
        None => 0,
    }
}

/// `i` is the first position of a value with the smallest rank (the largest one
/// when `largest` holds).
pub open spec fn is_first_extreme(vals: Seq<(Seq<char>, Option<i64>)>, i: int, largest: bool) -> bool {
    &&& 0 <= i < vals.len()
    &&& forall|j: int|
        0 <= j < vals.len() ==> if largest {
            rank_of(#[trigger] vals[j]) <= rank_of(vals[i])
        } else {
            rank_of(#[trigger] vals[j]) >= rank_of(vals[i])
        }
    &&& forall|j: int|
        0 <= j < i ==> if largest {
            rank_of(#[trigger] vals[j]) < rank_of(vals[i])
        } else {
            rank_of(#[trigger] vals[j]) > rank_of(vals[i])
        }
}

fn first_extreme(values: &Vec<JsonNumber>, largest: bool) -> (r: Option<usize>)
    ensures
        r is None <==> values@.len() == 0,
        r matches Some(i) ==> is_first_extreme(values@.map_values(|n: JsonNumber| n@), i as int, largest),
{
    let ghost vals = values@.map_values(|n: JsonNumber| n@);
    if values.len() == 0 {
        return None;
    }
    let mut best: usize = 0;
    let mut i: usize = 1;
    while i < values.len()
        invariant
            1 <= i <= values@.len(),
            vals == values@.map_values(|n: JsonNumber| n@),
            best < i,
            forall|j: int|
                0 <= j < i ==> if largest {
                    rank_of(#[trigger] vals[j]) <= rank_of(vals[best as int])
                } else {
                    rank_of(#[trigger] vals[j]) >= rank_of(vals[best as int])
                },
            forall|j: int|
                0 <= j < best ==> if largest {
                    rank_of(#[trigger] vals[j]) < rank_of(vals[best as int])
                } else {
                    rank_of(#[trigger] vals[j]) > rank_of(vals[best as int])
                },
        decreases values@.len() - i,
    {
        let ri = match values[i].float_rank {
            Some(r) => r,
            None => 0,
        };
        let rb = match values[best].float_rank {
            Some(r) => r,
            None => 0,
        };
        assert(ri == rank_of(vals[i as int]) && rb == rank_of(vals[best as int]));
        if (largest && ri > rb) || (!largest && ri < rb) {
            best = i;
        }
        i += 1;
    }
    Some(best)
}

impl Collection {
    /// Aggregates the documents that match every filter: counts them, or collects
    /// the numeric values of the aggregation's field for a sum or an average, or
    /// finds the first smallest or largest of those values.
    pub fn aggregate(docs: &[Document], filters: &[&Filter], aggregation: &Aggregation) -> (r: AggregationResult)
        ensures
            match aggregation {
                Aggregation::Count => r matches AggregationResult::Count(n) && n == min_usize(
                    matching_count(docs@, filters@),
                ),
                Aggregation::Sum(f) => r matches AggregationResult::Sum(v) && v@.map_values(|n: JsonNumber| n@)
                    == numeric_values(docs@, filters@, f@),
                Aggregation::Avg(f) => r matches AggregationResult::Avg(v) && v@.map_values(|n: JsonNumber| n@)
                    == numeric_values(docs@, filters@, f@),
                Aggregation::Min(f) => r matches AggregationResult::Extreme(e) && match e {
                    None => numeric_values(docs@, filters@, f@).len() == 0,
                    Some(n) => exists|i: int|
                        is_first_extreme(numeric_values(docs@, filters@, f@), i, false)
                            && #[trigger] numeric_values(docs@, filters@, f@)[i] == n@,
                },
                Aggregation::Max(f) => r matches AggregationResult::Extreme(e) && match e {
                    None => numeric_values(docs@, filters@, f@).len() == 0,
                    Some(n) => exists|i: int|
                        is_first_extreme(numeric_values(docs@, filters@, f@), i, true)
                            && #[trigger] numeric_values(docs@, filters@, f@)[i] == n@,
                },
            },
    {
        match aggregation {
            Aggregation::Count => {
                let (n, _) = Self::aggregation_inputs(docs, filters, None);
                AggregationResult::Count(n)
            },
            Aggregation::Sum(f) => {
                let (_, v) = Self::aggregation_inputs(docs, filters, Some(f.as_str()));
                AggregationResult::Sum(v)
            },
            Aggregation::Avg(f) => {
                let (_, v) = Self::aggregation_inputs(docs, filters, Some(f.as_str()));
                AggregationResult::Avg(v)
            },
            Aggregation::Min(f) | Aggregation::Max(f) => {
                let largest = match aggregation {
                    Aggregation::Max(_) => true,
                    _ => false,
                };
                let (_, v) = Self::aggregation_inputs(docs, filters, Some(f.as_str()));
                match first_extreme(&v, largest) {
                    Some(i) => {
                        let n = v[i].copy_number();
                        assert(v@.map_values(|n: JsonNumber| n@)[i as int] == n@);
                        AggregationResult::Extreme(Some(n))
                    },
                    None => AggregationResult::Extreme(None),
                }
            },
        }
    }
}

/// The kind of an entry of the write-ahead log.
#[derive(Debug, Clone, Copy, PartialEq, Eq, Structural)]
pub enum WalEntryKind {
    Insert,
    Update,
    Delete,
    /// Any other entry (transaction markers and the like).
    Other,
}

/// What replaying a log entry does to the collection.
#[derive(Debug, Clone, Copy, PartialEq, Eq, Structural)]
pub enum WalReplay {
    /// Insert the entry's data under its document ID.
    Insert,
    /// Merge the entry's data into the document.
    Update,
    /// Delete the document.
    Delete,
    /// Nothing.
    Skip,
}

impl Collection {
    /// How a log entry is replayed: inserts and updates need the entry's data
    /// (their absence is an invalid entry, with a message naming the operation),
    /// deletes do not, and other entries are passed over.
    pub fn wal_replay_action(kind: WalEntryKind, has_data: bool) -> (r: Result<WalReplay, String>)
        ensures
            kind == WalEntryKind::Insert ==> (if has_data {
                r == Ok::<WalReplay, String>(WalReplay::Insert)
            } else {
                r matches Err(m) && m@ == "Insert operation missing data"@
            }),
            kind == WalEntryKind::Update ==> (if has_data {
                r == Ok::<WalReplay, String>(WalReplay::Update)
            } else {
                r matches Err(m) && m@ == "Update operation missing data"@
            }),
            kind == WalEntryKind::Delete ==> r == Ok::<WalReplay, String>(WalReplay::Delete),
            kind == WalEntryKind::Other ==> r == Ok::<WalReplay, String>(WalReplay::Skip),
    {
        match kind {
            WalEntryKind::Insert => if has_data {
                Ok(WalReplay::Insert)
            } else {
                Err("Insert operation missing data".to_owned())
            },
            WalEntryKind::Update => if has_data {
                Ok(WalReplay::Update)
            } else {
                Err("Update operation missing data".to_owned())
            },
            WalEntryKind::Delete => Ok(WalReplay::Delete),
            WalEntryKind::Other => Ok(WalReplay::Skip),
        }
    }

    /// The event of an insert of a document of the given serialized size.
    pub fn insert_event(&self, size_bytes: u64) -> (r: StoreEvent)
        ensures
            r matches StoreEvent::DocumentInserted { collection, size_bytes: n } && collection@ == self.name@ && n
                == size_bytes,
    {
        StoreEvent::DocumentInserted { collection: self.name.clone(), size_bytes }
    }

    /// The event of an update of a document from one serialized size to another.
    pub fn update_event(&self, old_size_bytes: u64, new_size_bytes: u64) -> (r: StoreEvent)
        ensures
            r matches StoreEvent::DocumentUpdated { collection, old_size_bytes: o, new_size_bytes: n }
                && collection@ == self.name@ && o == old_size_bytes && n == new_size_bytes,
    {
        StoreEvent::DocumentUpdated { collection: self.name.clone(), old_size_bytes, new_size_bytes }
    }

    /// The event of a delete of a document of the given serialized size.
    pub fn delete_event(&self, size_bytes: u64) -> (r: StoreEvent)
        ensures
            r matches StoreEvent::DocumentDeleted { collection, size_bytes: n } && collection@ == self.name@ && n
                == size_bytes,
    {
        StoreEvent::DocumentDeleted { collection: self.name.clone(), size_bytes }
    }
}

/// The name of the file that holds the document with ID `id`.
pub open spec fn document_file_name(id: Seq<char>) -> Seq<char> {
    id + seq!['.', 'j', 's', 'o', 'n']
}

/// The file a document with a valid ID is written to is listed back under that
/// ID: its name ends with `.json`, does not begin with a dot, and without the
/// extension is the ID.
pub proof fn lemma_file_name_round_trip(id: Seq<char>)
    requires
        valid_document_id(id),
    ensures
        ends_with_json(document_file_name(id)),
        !is_internal_name(document_file_name(id)),
        document_file_name(id).subrange(0, document_file_name(id).len() - 5) == id,
{
    let f = document_file_name(id);
    assert(f.subrange(f.len() - 5, f.len() as int) =~= seq!['.', 'j', 's', 'o', 'n']);
    assert(f.subrange(0, f.len() - 5) =~= id);
    assert(is_id_char(id[0]));
    assert(f[0] == id[0]);
}

impl Collection {
    /// Checks a document's hash under the options, given the result of hashing
    /// its data (needed unless the hash mode is silent): a silent mode passes; an
    /// error of the hashing is passed on; a mismatch is an error only in strict mode.
    pub fn verify_hash(
        &self,
        doc: &Document,
        options: &VerificationOptions,
        computed_hash: &Option<Result<String, SentinelError>>,
    ) -> (r: Result<(), SentinelError>)
        requires
            options.hash_verification_mode != VerificationMode::Silent ==> computed_hash is Some,
        ensures
            r is Ok <==> hash_verdict_ok(options, doc.hash@, computed_hash),
            options.hash_verification_mode != VerificationMode::Silent ==> match hash_computation_error(computed_hash) {
                Some(e) => r == Err::<(), SentinelError>(e),
                None => true,
            },
            hash_mismatch_fails(options, doc.hash@, computed_hash) ==> match computed_text(computed_hash) {
                Some(h) => (r matches Err(SentinelError::HashVerificationFailed { id: x, reason }) && x@ == doc.id@
                    && reason@ == "Expected hash: "@ + doc.hash@ + ", Computed hash: "@ + h),
                None => false,
            },
    {
        if options.hash_verification_mode == VerificationMode::Silent {
            return Ok(());
        }
        match computed_hash {
            Some(Ok(h)) => hash_verdict(doc.id.as_str(), doc.hash.as_str(), options, h.as_str()),
            Some(Err(e)) => Err(e.clone_error()),
            None => Ok(()),
        }
    }

    /// Checks a document's signature under the options, given the result of
    /// checking it against the collection's key (needed when
    /// `signature_check_needed` asks for it, which needs a key): a missing
    /// signature fails when the empty-signature mode is strict; an invalid one
    /// when the signature mode is strict; an error of the check is passed on.
    /// Without a key no signature is checked against one.
    pub fn verify_signature(
        &self,
        doc: &Document,
        options: &VerificationOptions,
        validity: &Option<Result<bool, SentinelError>>,
    ) -> (r: Result<(), SentinelError>)
        requires
            signature_check_needed_spec(options, doc.signature@, self.has_signing_key) ==> validity is Some,
        ensures
            r is Ok <==> signature_verdict_ok(options, doc.signature@, self.has_signing_key, validity),
            signature_check_errs(options, doc.signature@, self.has_signing_key, validity) ==> match validity_error(
                validity,
            ) {
                Some(e) => r == Err::<(), SentinelError>(e),
                None => false,
            },
            !signature_check_errs(options, doc.signature@, self.has_signing_key, validity) && signature_fails(
                options,
                doc.signature@,
                self.has_signing_key,
                validity,
            ) ==> (r matches Err(SentinelError::SignatureVerificationFailed { id: x, reason }) && x@ == doc.id@
                && reason@ == (if doc.signature@.len() == 0 {
                "Document has no signature"@
            } else {
                "Signature verification using public key failed"@
            })),
    {
        let needed = signature_check_needed(options, doc.signature.as_str(), self.has_signing_key);
        let valid = match needed {
            SignatureCheck::NeedsValidity => match validity {
                Some(Ok(v)) => Some(*v),
                Some(Err(e)) => {
                    return Err(e.clone_error());
                },
                None => None,
            },
            SignatureCheck::Decided => None,
        };
        signature_verdict(doc.id.as_str(), doc.signature.as_str(), options, valid)
    }

    /// Checks a document under the options (see `document_verdict`), with the
    /// collection's key deciding whether signatures are checked against a key.
    pub fn verify_document(
        &self,
        doc: &Document,
        options: &VerificationOptions,
        computed_hash: &Option<Result<String, SentinelError>>,
        validity: &Option<Result<bool, SentinelError>>,
    ) -> (r: Result<(), SentinelError>)
        requires
            hash_checked(options) ==> computed_hash is Some,
            options.verify_signature && signature_check_needed_spec(options, doc.signature@, self.has_signing_key)
                ==> validity is Some,
        ensures
            r is Ok <==> (!options.verify_hash || hash_verdict_ok(options, doc.hash@, computed_hash)) && (
            !options.verify_signature || signature_verdict_ok(options, doc.signature@, self.has_signing_key, validity)),
            r is Ok <==> hash_passes(options, doc.hash@, computed_hash) && (!options.verify_signature || (
            !signature_check_errs(options, doc.signature@, self.has_signing_key, validity) && !signature_fails(
                options,
                doc.signature@,
                self.has_signing_key,
                validity,
            ))),
            hash_checked(options) ==> match hash_computation_error(computed_hash) {
                Some(e) => r == Err::<(), SentinelError>(e),
                None => true,
            },
            hash_checked(options) && hash_mismatch_fails(options, doc.hash@, computed_hash) ==> match computed_text(
                computed_hash,
            ) {
                Some(h) => (r matches Err(SentinelError::HashVerificationFailed { id: x, reason }) && x@ == doc.id@
                    && reason@ == "Expected hash: "@ + doc.hash@ + ", Computed hash: "@ + h),
                None => false,
            },
            hash_passes(options, doc.hash@, computed_hash) && options.verify_signature && signature_check_errs(
                options,
                doc.signature@,
                self.has_signing_key,
                validity,
            ) ==> match validity_error(validity) {
                Some(e) => r == Err::<(), SentinelError>(e),
                None => false,
            },
            hash_passes(options, doc.hash@, computed_hash) && options.verify_signature && !signature_check_errs(
                options,
                doc.signature@,
                self.has_signing_key,
                validity,
            ) && signature_fails(options, doc.signature@, self.has_signing_key, validity) ==> (r matches Err(
                SentinelError::SignatureVerificationFailed { id: x, reason },
            ) && x@ == doc.id@ && reason@ == (if doc.signature@.len() == 0 {
                "Document has no signature"@
            } else {
                "Signature verification using public key failed"@
            })),
    {
        document_verdict(
            doc.id.as_str(),
            doc.hash.as_str(),
            doc.signature.as_str(),
            options,
            self.has_signing_key,
            computed_hash,
            validity,
        )
    }
}


/// Only the documents that satisfy every filter take part in an aggregation:
/// the count is the number of matching documents, and the values that Sum,
/// Avg, Min and Max work on are exactly the numeric field values of the
/// matching documents that have one, in document order; each of them comes
/// from such a document.
pub proof fn lemma_aggregation_uses_matching_documents(docs: Seq<Document>, filters: Seq<&Filter>, field: Seq<char>)
    ensures
        matching_count(docs, filters) == docs.filter(|d: Document| all_filters_hold(d.data@, filters)).len(),
        numeric_values(docs, filters, field) == docs.filter(
            |d: Document| all_filters_hold(d.data@, filters) && numeric_value(d.data@, field) is Some,
        ).map_values(|d: Document| numeric_value(d.data@, field)->Some_0),
        forall|k: int|
            #![trigger numeric_values(docs, filters, field)[k]]
            0 <= k < numeric_values(docs, filters, field).len() ==> exists|i: int|
                0 <= i < docs.len() && all_filters_hold(#[trigger] docs[i].data@, filters) && numeric_value(
                    docs[i].data@,
                    field,
                ) == Some(numeric_values(docs, filters, field)[k]),
    decreases docs.len(),
{
    reveal(Seq::filter);
    if docs.len() > 0 {
        let rest = docs.drop_last();
        lemma_aggregation_uses_matching_documents(rest, filters, field);
        let vs = numeric_values(docs, filters, field);
        let rs = numeric_values(rest, filters, field);
        assert forall|k: int| #![trigger vs[k]] 0 <= k < vs.len() implies exists|i: int|
            0 <= i < docs.len() && all_filters_hold(#[trigger] docs[i].data@, filters) && numeric_value(
                docs[i].data@,
                field,
            ) == Some(vs[k]) by {
            if k < rs.len() {
                assert(vs[k] == rs[k]);
                let i = choose|i: int|
                    0 <= i < rest.len() && all_filters_hold(#[trigger] rest[i].data@, filters) && numeric_value(
                        rest[i].data@,
                        field,
                    ) == Some(rs[k]);
                assert(rest[i] == docs[i]);
            } else {
                assert(docs[docs.len() - 1] == docs.last());
            }
        }
    }
}

} // verus!
