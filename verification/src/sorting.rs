//! Stable sorting of documents by the value of a field.
use vstd::prelude::*;

use crate::comparison::{
    lemma_sorts_after_asymmetric, lemma_sorts_after_transitive, optional_has_float_rank, optional_view,
    sorts_after, value_sorts_after,
};
use crate::document::Document;
use crate::json::{get_field, get_field_value, JsonSpec};
use crate::query::SortOrder;

verus! {

/// The value by which a document sorts: its top-level field, if present.
#[verifier::opaque]
pub open spec fn sort_key(doc: Document, field: Seq<char>) -> Option<JsonSpec> {
    get_field(doc.data@, field)
}

/// Under the sort order, a document with key `a` must come after one with key `b`.
#[verifier::opaque]
pub open spec fn key_after(a: Option<JsonSpec>, b: Option<JsonSpec>, order: SortOrder) -> bool {
    match order {
        SortOrder::Ascending => sorts_after(a, b),
        SortOrder::Descending => sorts_after(b, a),
    }
}

/// `perm` maps each position of a sequence of length `n` to a distinct position of another.
pub open spec fn is_reordering(perm: Seq<int>, n: nat) -> bool {
    &&& perm.len() == n
    &&& forall|p: int| 0 <= p < n ==> 0 <= #[trigger] perm[p] < n
    &&& forall|p: int, q: int| 0 <= p < q < n ==> #[trigger] perm[p] != #[trigger] perm[q]
}

/// `r` is `s` reordered by `perm` so that no document comes before one that must
/// come after it, and neighbours that sort equal keep the order they had in `s`.
pub open spec fn sorted_by_key_with(r: Seq<Document>, s: Seq<Document>, field: Seq<char>, order: SortOrder, perm: Seq<int>) -> bool {
    &&& r.len() == s.len()
    &&& is_reordering(perm, s.len())
    &&& forall|p: int| 0 <= p < r.len() ==> #[trigger] r[p] == s[perm[p]]
    &&& forall|p: int|
        0 <= p < r.len() - 1 ==> !key_after(sort_key(#[trigger] r[p], field), sort_key(r[p + 1], field), order)
    &&& forall|p: int|
        0 <= p < r.len() - 1 && !key_after(sort_key(r[p + 1], field), sort_key(#[trigger] r[p], field), order)
            ==> perm[p] < perm[p + 1]
}

/// `r` is a stable sort of `s` by the key `field` in the given order.
pub open spec fn is_stable_sort_of(r: Seq<Document>, s: Seq<Document>, field: Seq<char>, order: SortOrder) -> bool {
    exists|perm: Seq<int>| sorted_by_key_with(r, s, field, order, perm)
}

fn doc_key_after(a: &Document, b: &Document, field: &str, order: SortOrder) -> (r: bool)
    ensures
        r == key_after(sort_key(*a, field@), sort_key(*b, field@), order),
{
    reveal(sort_key);
    reveal(key_after);
    let ka = get_field_value(&a.data, field);
    let kb = get_field_value(&b.data, field);
    assert(optional_view(ka) == sort_key(*a, field@));
    assert(optional_view(kb) == sort_key(*b, field@));
    match order {
        SortOrder::Ascending => value_sorts_after(ka, kb),
        SortOrder::Descending => value_sorts_after(kb, ka),
    }
}

proof fn lemma_key_after_asymmetric(a: Option<JsonSpec>, b: Option<JsonSpec>, order: SortOrder)
    ensures
        key_after(a, b, order) ==> !key_after(b, a, order),
{
    reveal(key_after);
    lemma_sorts_after_asymmetric(a, b);
    lemma_sorts_after_asymmetric(b, a);
}

/// The first `perm.len()` documents of `orig` are `sorted`, reordered by `perm`
/// as `sorted_by_key_with` asks.
#[verifier::opaque]
spec fn sorted_prefix(sorted: Seq<Document>, orig: Seq<Document>, field: Seq<char>, order: SortOrder, perm: Seq<int>) -> bool {
    &&& perm.len() <= orig.len()
    &&& sorted_by_key_with(sorted, orig.take(perm.len() as int), field, order, perm)
}

proof fn lemma_insert_keeps_sorted(
    sorted: Seq<Document>,
    orig: Seq<Document>,
    field: Seq<char>,
    order: SortOrder,
    perm: Seq<int>,
    j: int,
)
    requires
        sorted_prefix(sorted, orig, field, order, perm),
        perm.len() < orig.len(),
        0 <= j <= sorted.len(),
        j > 0 ==> !key_after(sort_key(sorted[j - 1], field), sort_key(orig[perm.len() as int], field), order),
        forall|p: int|
            j <= p < sorted.len() ==> key_after(
                sort_key(#[trigger] sorted[p], field),
                sort_key(orig[perm.len() as int], field),
                order,
            ),
    ensures
        sorted_prefix(
            sorted.insert(j, orig[perm.len() as int]),
            orig,
            field,
            order,
            perm.insert(j, perm.len() as int),
        ),
{
    reveal(sorted_prefix);
    let k = perm.len() as int;
    let x = orig[k];
    let ns = sorted.insert(j, x);
    let np = perm.insert(j, k);
    let t = orig.take(k + 1);
    assert forall|p: int| 0 <= p < k + 1 implies #[trigger] ns[p] == t[np[p]] by {
        if p > j {
            assert(ns[p] == sorted[p - 1]);
            assert(np[p] == perm[p - 1]);
        }
    }
    assert forall|p: int| 0 <= p < k + 1 implies 0 <= #[trigger] np[p] < k + 1 by {
        if p > j {
            assert(np[p] == perm[p - 1]);
        }
    }
    assert forall|p: int, q: int| 0 <= p < q < k + 1 implies #[trigger] np[p] != #[trigger] np[q] by {
        if q > j {
            assert(np[q] == perm[q - 1]);
        }
        if p > j {
            assert(np[p] == perm[p - 1]);
        }
    }
    assert forall|p: int| 0 <= p < k implies !key_after(
        sort_key(#[trigger] ns[p], field),
        sort_key(ns[p + 1], field),
        order,
    ) by {
        if p == j {
            lemma_key_after_asymmetric(sort_key(sorted[p], field), sort_key(x, field), order);
        } else if p > j {
            assert(ns[p] == sorted[p - 1]);
            assert(ns[p + 1] == sorted[p]);
        }
    }
    assert forall|p: int|
        0 <= p < k && !key_after(sort_key(ns[p + 1], field), sort_key(#[trigger] ns[p], field), order) implies np[p]
        < np[p + 1] by {
        if p + 1 == j {
            assert(np[p + 1] == k);
        } else if p > j {
            assert(ns[p] == sorted[p - 1]);
            assert(ns[p + 1] == sorted[p]);
            assert(np[p] == perm[p - 1]);
            assert(np[p + 1] == perm[p]);
        }
    }
    assert(sorted_by_key_with(ns, t, field, order, np));
}

/// Sorts documents by the value of `field` (a missing field first, then by the
/// order of JSON values), ascending or descending; documents that sort equal keep
/// their order.
pub fn sort_documents(docs: Vec<Document>, field: &str, order: SortOrder) -> (r: Vec<Document>)
    ensures
        is_stable_sort_of(r@, docs@, field@, order),
{
    let ghost orig = docs@;
    let total = docs.len();
    let mut rest = docs;
    let mut sorted: Vec<Document> = Vec::new();
    let ghost mut perm: Seq<int> = Seq::empty();
    let mut k: usize = 0;
    assert(orig.skip(0) =~= orig);
    assert(sorted@.len() == 0);
    assert(sorted_prefix(sorted@, orig, field@, order, perm)) by {
        reveal(sorted_prefix);
        assert(sorted_by_key_with(sorted@, orig.take(0), field@, order, perm));
    }
    while rest.len() > 0
        invariant
            k <= orig.len(),
            orig.len() == total,
            perm.len() == k,
            sorted@.len() == k,
            rest@ == orig.skip(k as int),
            sorted_prefix(sorted@, orig, field@, order, perm),
        decreases rest@.len(),
    {
        assert(k < orig.len());
        let x = rest.remove(0);
        assert(rest@ =~= orig.skip(k + 1));
        assert(x == orig[k as int]);
        let mut j: usize = sorted.len();
        while j > 0 && doc_key_after(&sorted[j - 1], &x, field, order)
            invariant
                j <= sorted@.len(),
                forall|p: int|
                    j <= p < sorted@.len() ==> key_after(
                        sort_key(#[trigger] sorted@[p], field@),
                        sort_key(x, field@),
                        order,
                    ),
            decreases j,
        {
            j -= 1;
        }
        proof {
            lemma_insert_keeps_sorted(sorted@, orig, field@, order, perm, j as int);
            perm = perm.insert(j as int, k as int);
        }
        sorted.insert(j, x);
        k += 1;
    }
    assert(is_stable_sort_of(sorted@, orig, field@, order)) by {
        reveal(sorted_prefix);
        assert(orig.take(k as int) =~= orig);
        assert(sorted_by_key_with(sorted@, orig, field@, order, perm));
    }
    sorted
}

/// When no key is a number without a double value, a sorted sequence is in
/// order everywhere, not only between neighbours: no document comes before one
/// that must come after it.
pub proof fn lemma_sorted_everywhere(r: Seq<Document>, s: Seq<Document>, field: Seq<char>, order: SortOrder)
    requires
        is_stable_sort_of(r, s, field, order),
        forall|p: int| 0 <= p < r.len() ==> optional_has_float_rank(sort_key(#[trigger] r[p], field)),
    ensures
        forall|p: int, q: int|
            0 <= p < q < r.len() ==> !key_after(sort_key(#[trigger] r[p], field), sort_key(#[trigger] r[q], field), order),
{
    let perm = choose|perm: Seq<int>| sorted_by_key_with(r, s, field, order, perm);
    assert forall|p: int, q: int| 0 <= p < q < r.len() implies !key_after(
        sort_key(#[trigger] r[p], field),
        sort_key(#[trigger] r[q], field),
        order,
    ) by {
        lemma_sorted_prefix(r, field, order, p, q);
    }
}

proof fn lemma_sorted_prefix(r: Seq<Document>, field: Seq<char>, order: SortOrder, p: int, q: int)
    requires
        0 <= p < q < r.len(),
        forall|i: int| 0 <= i < r.len() ==> optional_has_float_rank(sort_key(#[trigger] r[i], field)),
        forall|i: int|
            0 <= i < r.len() - 1 ==> !key_after(sort_key(#[trigger] r[i], field), sort_key(r[i + 1], field), order),
    ensures
        !key_after(sort_key(r[p], field), sort_key(r[q], field), order),
    decreases q - p,
{
    reveal(key_after);
    if q > p + 1 {
        lemma_sorted_prefix(r, field, order, p, q - 1);
        assert(!key_after(sort_key(r[q - 1], field), sort_key(r[q], field), order));
        let (a, b, c) = (sort_key(r[p], field), sort_key(r[q - 1], field), sort_key(r[q], field));
        match order {
            SortOrder::Ascending => lemma_sorts_after_transitive(a, b, c),
            SortOrder::Descending => lemma_sorts_after_transitive(c, b, a),
        }
    }
}

} // verus!
