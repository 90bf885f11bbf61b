//! Queries: filters on document fields, sorting, paging and projection.
use vstd::prelude::*;

use crate::document::Document;
use crate::filtering::{filter_holds, matches_filters};
use crate::json::{lemma_object_view, members_spec, JsonSpec, JsonValue};
use crate::sorting::{is_stable_sort_of, sort_documents};

verus! {

/// A condition on a document's top-level field.
#[derive(Debug)]
pub enum Filter {
    /// The field equals the value.
    Equals(String, JsonValue),
    /// The field is a number greater than the given number.
    GreaterThan(String, JsonValue),
    /// The field is a number less than the given number.
    LessThan(String, JsonValue),
    /// The field is a number greater than or equal to the given number.
    GreaterOrEqual(String, JsonValue),
    /// The field is a number less than or equal to the given number.
    LessOrEqual(String, JsonValue),
    /// The field equals one of the values.
    In(String, Vec<JsonValue>),
    /// The field is a string containing the text, or an array holding such a string.
    Contains(String, String),
    /// The field is a string starting with the text.
    StartsWith(String, String),
    /// The field is a string ending with the text.
    EndsWith(String, String),
    /// The field is present (`true`) or absent (`false`).
    Exists(String, bool),
    /// Both filters hold.
    And(Box<Filter>, Box<Filter>),
    /// At least one of the filters holds.
    Or(Box<Filter>, Box<Filter>),
}

/// Direction of a sort.
#[derive(Debug, Clone, Copy, PartialEq, Eq, Structural)]
pub enum SortOrder {
    Ascending,
    Descending,
}

/// A query: filters that every document must satisfy, an optional sort by a
/// field, paging by offset and limit, and an optional projection to some fields.
#[derive(Debug)]
pub struct Query {
    pub filters: Vec<Filter>,
    pub sort: Option<(String, SortOrder)>,
    pub limit: Option<usize>,
    pub offset: Option<usize>,
    pub projection: Option<Vec<String>>,
}

/// An aggregation over the documents that match some filters.
#[derive(Debug)]
pub enum Aggregation {
    /// The number of matching documents.
    Count,
    /// The sum of a numeric field.
    Sum(String),
    /// The average of a numeric field.
    Avg(String),
    /// The smallest value of a numeric field.
    Min(String),
    /// The largest value of a numeric field.
    Max(String),
}

// ---------------------------------------------------------------------------
// Paging
// ---------------------------------------------------------------------------

/// The first position of a page: the offset (0 when absent), at most the length.
pub open spec fn page_start(len: nat, offset: Option<usize>) -> nat {
    let o: nat = match offset {
        Some(o) => o as nat,
        None => 0,
    };
    if o < len {
        o
    } else {
        len
    }
}

/// The position after the last one of a page: the start plus the limit, at most
/// the length; the length when there is no limit.
pub open spec fn page_end(len: nat, offset: Option<usize>, limit: Option<usize>) -> nat {
    match limit {
        Some(l) => if page_start(len, offset) + (l as nat) < len {
            page_start(len, offset) + (l as nat)
        } else {
            len
        },
        None => len,
    }
}

/// The positions `start..end` of the page that `offset` and `limit` select out of
/// `len` results.
pub fn page_bounds(len: usize, offset: Option<usize>, limit: Option<usize>) -> (r: (usize, usize))
    ensures
        r.0 == page_start(len as nat, offset),
        r.1 == page_end(len as nat, offset, limit),
{
    let o = match offset {
        Some(o) => o,
        None => 0,
    };
    let start = if o < len {
        o
    } else {
        len
    };
    let end = match limit {
        Some(l) => {
            let e = start.saturating_add(l);
            if e < len {
                e
            } else {
                len
            }
        },
        None => len,
    };
    (start, end)
}

// ---------------------------------------------------------------------------
// The window of a streaming query
// ---------------------------------------------------------------------------

/// What a streaming query does with the next document that matches its filters.
#[derive(Debug, Clone, Copy, PartialEq, Eq, Structural)]
pub enum WindowStep {
    /// The document is before the offset: it is passed over.
    Skip,
    /// The document is inside the page: it is yielded.
    Yield,
    /// The page is full: the stream ends.
    Stop,
}

/// The state of a streaming query's page: how many matching documents it has
/// passed over and how many it has yielded.
#[derive(Debug, Clone, Copy, PartialEq, Eq, Structural)]
pub struct StreamWindow {
    pub offset: usize,
    pub limit: usize,
    pub skipped: usize,
    pub yielded: usize,
}

/// The window of a query before any document.
pub open spec fn fresh_window(offset: Option<usize>, limit: Option<usize>) -> StreamWindow {
    StreamWindow {
        offset: match offset {
            Some(o) => o,
            None => 0,
        },
        limit: match limit {
            Some(l) => l,
            None => usize::MAX,
        },
        skipped: 0,
        yielded: 0,
    }
}

/// The step of a window on the next matching document, and the window after it.
pub open spec fn window_next(w: StreamWindow) -> (StreamWindow, WindowStep) {
    if w.skipped < w.offset {
        (StreamWindow { skipped: (w.skipped + 1) as usize, ..w }, WindowStep::Skip)
    } else if w.yielded >= w.limit {
        (w, WindowStep::Stop)
    } else {
        (StreamWindow { yielded: (w.yielded + 1) as usize, ..w }, WindowStep::Yield)
    }
}

/// The window after `i` matching documents.
pub open spec fn window_after(w: StreamWindow, i: nat) -> StreamWindow
    decreases i,
{
    if i == 0 {
        w
    } else {
        window_next(window_after(w, (i - 1) as nat)).0
    }
}

impl StreamWindow {
    /// The window of a query with the given offset (0 when absent) and limit (none
    /// when absent), before any document.
    pub fn new(offset: Option<usize>, limit: Option<usize>) -> (r: StreamWindow)
        ensures
            r == fresh_window(offset, limit),
    {
        StreamWindow {
            offset: match offset {
                Some(o) => o,
                None => 0,
            },
            limit: match limit {
                Some(l) => l,
                None => usize::MAX,
            },
            skipped: 0,
            yielded: 0,
        }
    }

    /// Decides what to do with the next document that matches the filters:
    /// pass over it while fewer than `offset` have been passed over, end the
    /// stream once `limit` have been yielded, and yield it otherwise.
    pub fn step(&mut self) -> (r: WindowStep)
        ensures
            (*final(self), r) == window_next(*old(self)),
    {
        if self.skipped < self.offset {
            self.skipped = self.skipped + 1;
            WindowStep::Skip
        } else if self.yielded >= self.limit {
            WindowStep::Stop
        } else {
            self.yielded = self.yielded + 1;
            WindowStep::Yield
        }
    }
}

proof fn lemma_window_after_fresh(offset: Option<usize>, limit: Option<usize>, i: nat)
    ensures
        ({
            let w = fresh_window(offset, limit);
            let a = window_after(w, i);
            &&& a.offset == w.offset
            &&& a.limit == w.limit
            &&& a.skipped == if i <= w.offset { i } else { w.offset as nat }
            &&& a.yielded == if i <= w.offset {
                0
            } else if i - w.offset <= w.limit {
                (i - w.offset) as nat
            } else {
                w.limit as nat
            }
        }),
    decreases i,
{
    if i > 0 {
        lemma_window_after_fresh(offset, limit, (i - 1) as nat);
    }
}

/// A streaming query without a sort yields the same documents as a sorted query
/// pages out of its results: among `len` matching documents, the one at position
/// `i` is yielded exactly when `i` lies in the page `page_start..page_end`, it is
/// passed over exactly when it lies before the page, and once the window stops it
/// stops on every later document too.
pub proof fn lemma_stream_window_is_page(offset: Option<usize>, limit: Option<usize>, len: nat, i: nat)
    requires
        i < len,
        len <= usize::MAX,
    ensures
        (window_next(window_after(fresh_window(offset, limit), i)).1 == WindowStep::Yield) <==> (page_start(
            len,
            offset,
        ) <= i < page_end(len, offset, limit)),
        (window_next(window_after(fresh_window(offset, limit), i)).1 == WindowStep::Skip) <==> i < page_start(
            len,
            offset,
        ),
        window_next(window_after(fresh_window(offset, limit), i)).1 == WindowStep::Stop ==> window_next(
            window_after(fresh_window(offset, limit), i + 1),
        ).1 == WindowStep::Stop,
{
    lemma_window_after_fresh(offset, limit, i);
    lemma_window_after_fresh(offset, limit, i + 1);
}

// ---------------------------------------------------------------------------
// Projection
// ---------------------------------------------------------------------------

/// The members of an object whose keys are among `fields`, in their order; no
/// member for a value that is not an object.
pub open spec fn projected_members(data: JsonSpec, fields: Seq<Seq<char>>) -> Seq<(Seq<char>, JsonSpec)> {
    match data {
        JsonSpec::Object(m) => m.filter(|e: (Seq<char>, JsonSpec)| fields.contains(e.0)),
        _ => Seq::empty(),
    }
}

/// The views of a list of field names.
pub open spec fn field_names(fields: Seq<String>) -> Seq<Seq<char>> {
    fields.map_values(|f: String| f@)
}

fn is_listed(key: &str, fields: &[String]) -> (r: bool)
    ensures
        r == field_names(fields@).contains(key@),
{
    let mut i: usize = 0;
    while i < fields.len()
        invariant
            i <= fields@.len(),
            forall|k: int| 0 <= k < i ==> fields@[k]@ != key@,
        decreases fields@.len() - i,
    {
        if fields[i].as_str().to_owned() == key.to_owned() {
            assert(field_names(fields@)[i as int] == key@);
            return true;
        }
        i += 1;
    }
    proof {
        if field_names(fields@).contains(key@) {
            let k = choose|k: int| 0 <= k < field_names(fields@).len() && field_names(fields@)[k] == key@;
            assert(fields@[k]@ == key@);
        }
    }
    false
}

/// The data reduced to the members whose keys are among `fields`.
pub fn project_data(data: &JsonValue, fields: &[String]) -> (r: JsonValue)
    ensures
        r@ == JsonSpec::Object(projected_members(data@, field_names(fields@))),
{
    let ghost names = field_names(fields@);
    let ghost pred = |e: (Seq<char>, JsonSpec)| names.contains(e.0);
    match data {
        JsonValue::Object(m) => {
            proof {
                lemma_object_view(*m);
            }
            let ghost ms = members_spec(m@);
            let mut out: Vec<(String, JsonValue)> = Vec::new();
            let mut i: usize = 0;
            while i < m.len()
                invariant
                    i <= m@.len(),
                    ms == members_spec(m@),
                    names == field_names(fields@),
                    pred == (|e: (Seq<char>, JsonSpec)| names.contains(e.0)),
                    members_spec(out@) == ms.take(i as int).filter(pred),
                decreases m@.len() - i,
            {
                proof {
                    assert(ms.take(i + 1).drop_last() =~= ms.take(i as int));
                }
                let listed = is_listed(m[i].0.as_str(), fields);
                proof {
                    assert(ms[i as int].0 == m@[i as int].0@);
                    assert(pred(ms[i as int]) == listed);
                    assert(ms.take(i + 1).last() == ms[i as int]);
                    reveal(Seq::filter);
                    assert(ms.take(i + 1).filter(pred) == if pred(ms[i as int]) {
                        ms.take(i as int).filter(pred).push(ms[i as int])
                    } else {
                        ms.take(i as int).filter(pred)
                    });
                }
                if listed {
                    let k = m[i].0.clone();
                    let v = m[i].1.clone_value();
                    let ghost prev = out@;
                    out.push((k, v));
                    proof {
                        assert(members_spec(out@) =~= members_spec(prev).push(ms[i as int]));
                    }
                }
                i += 1;
            }
            proof {
                assert(ms.take(i as int) =~= ms);
                lemma_object_view(out);
            }
            JsonValue::Object(out)
        },
        _ => {
            let out: Vec<(String, JsonValue)> = Vec::new();
            proof {
                lemma_object_view(out);
                assert(members_spec(out@) =~= Seq::<(Seq<char>, JsonSpec)>::empty());
            }
            JsonValue::Object(out)
        },
    }
}

/// `a` and `b` agree on everything but their data.
pub open spec fn same_metadata(a: Document, b: Document) -> bool {
    &&& a.id@ == b.id@
    &&& a.version == b.version
    &&& a.created_at == b.created_at
    &&& a.updated_at == b.updated_at
    &&& a.hash@ == b.hash@
    &&& a.signature@ == b.signature@
    &&& a.stale_data_warning == b.stale_data_warning
    &&& a.warning_timestamp == b.warning_timestamp
}

impl Document {
    /// A copy of the document whose data keeps only the members named in `fields`.
    pub fn project(&self, fields: &[String]) -> (r: Document)
        ensures
            same_metadata(r, *self),
            r.data@ == JsonSpec::Object(projected_members(self.data@, field_names(fields@))),
    {
        Document {
            id: self.id.clone(),
            version: self.version,
            created_at: self.created_at,
            updated_at: self.updated_at,
            hash: self.hash.clone(),
            signature: self.signature.clone(),
            data: project_data(&self.data, fields),
            stale_data_warning: self.stale_data_warning,
            warning_timestamp: self.warning_timestamp,
        }
    }
}

// ---------------------------------------------------------------------------
// Answering a query from a set of documents
// ---------------------------------------------------------------------------

/// Whether data satisfies every filter of a list of filters.
pub open spec fn all_hold(data: JsonSpec, filters: Seq<Filter>) -> bool {
    forall|i: int| 0 <= i < filters.len() ==> filter_holds(data, #[trigger] filters[i])
}

/// The documents that satisfy every filter, in their order.
pub open spec fn filtered_documents(docs: Seq<Document>, filters: Seq<Filter>) -> Seq<Document> {
    docs.filter(|d: Document| all_hold(d.data@, filters))
}

/// `r` is `d` under the query's projection.
pub open spec fn is_projection_of(r: Document, d: Document, projection: Option<Vec<String>>) -> bool {
    match projection {
        None => r == d,
        Some(fs) => same_metadata(r, d) && r.data@ == JsonSpec::Object(projected_members(d.data@, field_names(fs@))),
    }
}

/// `s` is the query's ordering of the documents that pass its filters: sorted
/// stably when the query sorts, in their order otherwise.
pub open spec fn is_query_order(s: Seq<Document>, docs: Seq<Document>, query: Query) -> bool {
    match query.sort {
        Some((field, order)) => is_stable_sort_of(s, filtered_documents(docs, query.filters@), field@, order),
        None => s == filtered_documents(docs, query.filters@),
    }
}

/// `r` answers the query over `docs`: the page that the query's offset and limit
/// select out of the query's ordering of the matching documents, each projected.
pub open spec fn answers_query(r: Seq<Document>, docs: Seq<Document>, query: Query) -> bool {
    exists|s: Seq<Document>|
        {
            &&& is_query_order(s, docs, query)
            &&& r.len() == page_end(s.len(), query.offset, query.limit) - page_start(s.len(), query.offset)
            &&& forall|p: int|
                0 <= p < r.len() ==> is_projection_of(
                    #[trigger] r[p],
                    s[page_start(s.len(), query.offset) + p],
                    query.projection,
                )
        }
}

fn keep_matching(docs: Vec<Document>, filters: &Vec<Filter>) -> (r: Vec<Document>)
    ensures
        r@ == filtered_documents(docs@, filters@),
{
    let ghost orig = docs@;
    let ghost pred = |d: Document| all_hold(d.data@, filters@);
    let mut refs: Vec<&Filter> = Vec::new();
    let mut i: usize = 0;
    while i < filters.len()
        invariant
            i <= filters@.len(),
            refs@.len() == i,
            forall|k: int| 0 <= k < i ==> *#[trigger] refs@[k] == filters@[k],
        decreases filters@.len() - i,
    {
        refs.push(&filters[i]);
        i += 1;
    }
    let total = docs.len();
    let mut rest = docs;
    let mut kept: Vec<Document> = Vec::new();
    let mut k: usize = 0;
    assert(orig.skip(0) =~= orig);
    proof {
        reveal(Seq::filter);
        assert(orig.take(0).filter(pred) =~= Seq::<Document>::empty());
    }
    while rest.len() > 0
        invariant
            k <= orig.len(),
            orig.len() == total,
            rest@ == orig.skip(k as int),
            refs@.len() == filters@.len(),
            forall|j: int| 0 <= j < refs@.len() ==> *#[trigger] refs@[j] == filters@[j],
            pred == (|d: Document| all_hold(d.data@, filters@)),
            kept@ == orig.take(k as int).filter(pred),
        decreases rest@.len(),
    {
        assert(k < orig.len());
        let x = rest.remove(0);
        assert(rest@ =~= orig.skip(k + 1));
        assert(x == orig[k as int]);
        let m = matches_filters(&x, refs.as_slice());
        proof {
            assert(m == pred(x)) by {
                if m {
                    assert forall|j: int| 0 <= j < filters@.len() implies filter_holds(x.data@, #[trigger] filters@[j]) by {
                        assert(filter_holds(x.data@, *refs@[j]));
                    }
                } else {
                    let j = choose|j: int| 0 <= j < refs@.len() && !filter_holds(x.data@, *#[trigger] refs@[j]);
                    assert(!filter_holds(x.data@, filters@[j]));
                }
            }
            reveal(Seq::filter);
            assert(orig.take(k + 1).drop_last() =~= orig.take(k as int));
            assert(orig.take(k + 1).last() == x);
        }
        if m {
            kept.push(x);
        }
        k += 1;
    }
    assert(orig.take(k as int) =~= orig);
    kept
}

/// Answers a query over a set of loaded documents: keeps those that satisfy
/// every filter, sorts them stably when the query sorts, selects the page of its
/// offset and limit, and projects each document when the query projects.
pub fn select_documents(docs: Vec<Document>, query: &Query) -> (r: Vec<Document>)
    ensures
        answers_query(r@, docs@, *query),
{
    let matching = keep_matching(docs, &query.filters);
    let ghost fd = matching@;
    let ordered = match &query.sort {
        Some((field, order)) => sort_documents(matching, field.as_str(), *order),
        None => matching,
    };
    let ghost s = ordered@;
    let (start, end) = page_bounds(ordered.len(), query.offset, query.limit);
    let mut all = ordered;
    all.truncate(end);
    let page = all.split_off(start);
    assert(page@ =~= s.subrange(start as int, end as int));
    let mut result: Vec<Document> = Vec::new();
    let mut rest = page;
    let ghost pg = rest@;
    let mut p: usize = 0;
    assert(pg.skip(0) =~= pg);
    while rest.len() > 0
        invariant
            p <= pg.len(),
            pg == s.subrange(start as int, end as int),
            start <= end <= s.len(),
            rest@ == pg.skip(p as int),
            result@.len() == p,
            forall|q: int| 0 <= q < p ==> is_projection_of(#[trigger] result@[q], s[start + q], query.projection),
        decreases rest@.len(),
    {
        let d = rest.remove(0);
        assert(rest@ =~= pg.skip(p + 1));
        assert(d == s[start + p]);
        let out = match &query.projection {
            Some(fields) => d.project(fields.as_slice()),
            None => d,
        };
        result.push(out);
        p += 1;
    }
    assert(is_query_order(s, docs@, *query));
    result
}

/// `d` is a document of `docs` that passes all of the query's filters, projected
/// when the query projects.
pub open spec fn from_matching_document(d: Document, docs: Seq<Document>, query: Query) -> bool {
    exists|q: int|
        0 <= q < docs.len() && all_hold(docs[q].data@, query.filters@) && is_projection_of(
            d,
            #[trigger] docs[q],
            query.projection,
        )
}

/// Every document in the answer to a query comes from a document that passes
/// all of the query's filters (it is that document, projected when the query
/// projects), and the answer holds at most `limit` documents.
pub proof fn lemma_answers_come_from_matches(r: Seq<Document>, docs: Seq<Document>, query: Query)
    requires
        answers_query(r, docs, query),
    ensures
        forall|p: int| 0 <= p < r.len() ==> from_matching_document(#[trigger] r[p], docs, query),
        query.limit matches Some(l) ==> r.len() <= l,
{
    let s = choose|s: Seq<Document>|
        {
            &&& is_query_order(s, docs, query)
            &&& r.len() == page_end(s.len(), query.offset, query.limit) - page_start(s.len(), query.offset)
            &&& forall|p: int|
                0 <= p < r.len() ==> is_projection_of(
                    #[trigger] r[p],
                    s[page_start(s.len(), query.offset) + p],
                    query.projection,
                )
        };
    let pred = |d: Document| all_hold(d.data@, query.filters@);
    let fd = docs.filter(pred);
    let start = page_start(s.len(), query.offset);
    assert forall|p: int| 0 <= p < r.len() implies from_matching_document(#[trigger] r[p], docs, query) by {
        let i = start + p;
        let j: int = match query.sort {
            Some((field, order)) => {
                let perm = choose|perm: Seq<int>| crate::sorting::sorted_by_key_with(s, fd, field@, order, perm);
                perm[i]
            },
            None => i,
        };
        assert(0 <= i < s.len());
        assert(0 <= j < fd.len() && s[i] == fd[j]);
        docs.lemma_filter_pred(pred, j);
        assert(fd.contains(fd[j]));
        docs.lemma_filter_contains_rev(pred, fd[j]);
        let k = choose|k: int| 0 <= k < docs.len() && docs[k] == fd[j];
        assert(is_projection_of(r[p], docs[k], query.projection));
        assert(all_hold(docs[k].data@, query.filters@));
    }
}

} // verus!
