//! The JSON data model that documents carry.
//!
//! A document's data is a JSON value. Objects keep their members in ascending
//! key order with no key twice, the way a sorted map iterates them; numbers keep
//! their decimal text and, where the text denotes a finite double, the rank of
//! that double among all finite doubles (an integer that orders numbers exactly
//! as their double values are ordered, with `0.0` and `-0.0` at the same rank).
use vstd::prelude::*;

verus! {

/// A JSON number: its text, and the rank of its double value where it has one.
#[derive(Debug, Clone)]
pub struct JsonNumber {
    /// The number as written, e.g. `25`, `-1.5`, `1e400`.
    pub text: String,
    /// Order-preserving integer image of the number's finite double value;
    /// `None` when the text does not denote a finite double.
    pub float_rank: Option<i64>,
}

/// A JSON value.
#[derive(Debug)]
pub enum JsonValue {
    Null,
    Bool(bool),
    Number(JsonNumber),
    String(String),
    Array(Vec<JsonValue>),
    /// Members in ascending key order, no key twice.
    Object(Vec<(String, JsonValue)>),
}

/// The mathematical view of a JSON value.
pub enum JsonSpec {
    Null,
    Bool(bool),
    Number(Seq<char>, Option<i64>),
    String(Seq<char>),
    Array(Seq<JsonSpec>),
    Object(Seq<(Seq<char>, JsonSpec)>),
}

impl View for JsonNumber {
    type V = (Seq<char>, Option<i64>);

    open spec fn view(&self) -> (Seq<char>, Option<i64>) {
        (self.text@, self.float_rank)
    }
}

pub open spec fn json_view(v: JsonValue) -> JsonSpec
    decreases v,
{
    match v {
        JsonValue::Null => JsonSpec::Null,
        JsonValue::Bool(b) => JsonSpec::Bool(b),
        JsonValue::Number(n) => JsonSpec::Number(n.text@, n.float_rank),
        JsonValue::String(s) => JsonSpec::String(s@),
        JsonValue::Array(a) => JsonSpec::Array(
            Seq::new(
                a@.len(),
                |i: int|
                    if 0 <= i < a@.len() {
                        json_view(a@[i])
                    } else {
                        JsonSpec::Null
                    },
            ),
        ),
        JsonValue::Object(m) => JsonSpec::Object(
            Seq::new(
                m@.len(),
                |i: int|
                    if 0 <= i < m@.len() {
                        (m@[i].0@, json_view(m@[i].1))
                    } else {
                        (Seq::empty(), JsonSpec::Null)
                    },
            ),
        ),
    }
}

impl View for JsonValue {
    type V = JsonSpec;

    open spec fn view(&self) -> JsonSpec {
        json_view(*self)
    }
}

// ---------------------------------------------------------------------------
// Order on characters and on strings
// ---------------------------------------------------------------------------

/// Strict order on strings: the lexicographic order of their characters,
/// which is the order of their UTF-8 bytes.
pub open spec fn str_lt(a: Seq<char>, b: Seq<char>) -> bool
    decreases a.len(),
{
    if b.len() == 0 {
        false
    } else if a.len() == 0 {
        true
    } else if a[0] != b[0] {
        a[0] < b[0]
    } else {
        str_lt(a.drop_first(), b.drop_first())
    }
}

/// Keys in strictly ascending order.
pub open spec fn keys_sorted(m: Seq<(Seq<char>, JsonSpec)>) -> bool {
    forall|i: int, j: int| 0 <= i < j < m.len() ==> str_lt(#[trigger] m[i].0, #[trigger] m[j].0)
}

/// The value of member `key` in an object's member list.
pub open spec fn member_lookup(m: Seq<(Seq<char>, JsonSpec)>, key: Seq<char>) -> Option<JsonSpec>
    decreases m.len(),
{
    if m.len() == 0 {
        None
    } else if m[0].0 == key {
        Some(m[0].1)
    } else {
        member_lookup(m.drop_first(), key)
    }
}

/// `value.get(field)`: the member `field` of an object; nothing for any other value.
pub open spec fn get_field(v: JsonSpec, field: Seq<char>) -> Option<JsonSpec> {
    match v {
        JsonSpec::Object(m) => member_lookup(m, field),
        _ => None,
    }
}

// ---------------------------------------------------------------------------
// Lemmas on the string order
// ---------------------------------------------------------------------------

pub proof fn lemma_str_lt_irreflexive(a: Seq<char>)
    ensures
        !str_lt(a, a),
    decreases a.len(),
{
    if a.len() > 0 {
        lemma_str_lt_irreflexive(a.drop_first());
    }
}

pub proof fn lemma_str_lt_asymmetric(a: Seq<char>, b: Seq<char>)
    ensures
        str_lt(a, b) ==> !str_lt(b, a),
    decreases a.len(),
{
    if a.len() > 0 && b.len() > 0 && a[0] == b[0] {
        lemma_str_lt_asymmetric(a.drop_first(), b.drop_first());
    }
}

pub proof fn lemma_str_lt_transitive(a: Seq<char>, b: Seq<char>, c: Seq<char>)
    requires
        str_lt(a, b),
        str_lt(b, c),
    ensures
        str_lt(a, c),
    decreases a.len(),
{
    if a.len() > 0 && b.len() > 0 && c.len() > 0 {
        if a[0] == b[0] && b[0] == c[0] {
            lemma_str_lt_transitive(a.drop_first(), b.drop_first(), c.drop_first());
        }
    }
}

/// Two different strings are ordered one way or the other.
pub proof fn lemma_str_lt_total(a: Seq<char>, b: Seq<char>)
    ensures
        a == b || str_lt(a, b) || str_lt(b, a),
    decreases a.len(),
{
    if a.len() > 0 && b.len() > 0 {
        if a[0] == b[0] {
            lemma_str_lt_total(a.drop_first(), b.drop_first());
            if a.drop_first() == b.drop_first() {
                assert(a =~= seq![a[0]] + a.drop_first());
                assert(b =~= seq![b[0]] + b.drop_first());
            }
        }
    } else if a.len() == 0 && b.len() == 0 {
        assert(a =~= b);
    }
}

/// `a` comes before `b` exactly when, after a common prefix of length `k`,
/// either `a` ends while `b` goes on or `a` has the smaller character at `k`.
pub proof fn lemma_str_lt_lexicographic(a: Seq<char>, b: Seq<char>)
    ensures
        str_lt(a, b) <==> exists|k: int|
            0 <= k <= a.len() && k < b.len() && #[trigger] a.subrange(0, k) == b.subrange(0, k) && (k
                == a.len() || a[k] < b[k]),
    decreases a.len(),
{
    if b.len() == 0 {
    } else if a.len() == 0 {
        assert(a.subrange(0, 0) =~= b.subrange(0, 0));
    } else if a[0] != b[0] {
        if a[0] < b[0] {
            assert(a.subrange(0, 0) =~= b.subrange(0, 0));
        }
        if exists|k: int|
            0 <= k <= a.len() && k < b.len() && #[trigger] a.subrange(0, k) == b.subrange(0, k) && (k
                == a.len() || a[k] < b[k]) {
            let k = choose|k: int|
                0 <= k <= a.len() && k < b.len() && #[trigger] a.subrange(0, k) == b.subrange(0, k) && (k
                    == a.len() || a[k] < b[k]);
            if k > 0 {
                assert(a.subrange(0, k)[0] == b.subrange(0, k)[0]);
            }
        }
    } else {
        let a1 = a.drop_first();
        let b1 = b.drop_first();
        lemma_str_lt_lexicographic(a1, b1);
        if exists|k: int|
            0 <= k <= a.len() && k < b.len() && #[trigger] a.subrange(0, k) == b.subrange(0, k) && (k
                == a.len() || a[k] < b[k]) {
            let k = choose|k: int|
                0 <= k <= a.len() && k < b.len() && #[trigger] a.subrange(0, k) == b.subrange(0, k) && (k
                    == a.len() || a[k] < b[k]);
            assert(k > 0);
            assert forall|i: int| 0 <= i < k - 1 implies #[trigger] a1.subrange(0, k - 1)[i] == b1.subrange(
                0,
                k - 1,
            )[i] by {
                assert(a.subrange(0, k)[i + 1] == b.subrange(0, k)[i + 1]);
            }
            assert(a1.subrange(0, k - 1) =~= b1.subrange(0, k - 1));
        }
        if exists|k: int|
            0 <= k <= a1.len() && k < b1.len() && #[trigger] a1.subrange(0, k) == b1.subrange(0, k) && (k
                == a1.len() || a1[k] < b1[k]) {
            let k = choose|k: int|
                0 <= k <= a1.len() && k < b1.len() && #[trigger] a1.subrange(0, k) == b1.subrange(0, k)
                    && (k == a1.len() || a1[k] < b1[k]);
            assert forall|i: int| 0 <= i < k + 1 implies #[trigger] a.subrange(0, k + 1)[i] == b.subrange(
                0,
                k + 1,
            )[i] by {
                if i > 0 {
                    assert(a1.subrange(0, k)[i - 1] == b1.subrange(0, k)[i - 1]);
                }
            }
            assert(a.subrange(0, k + 1) =~= b.subrange(0, k + 1));
        }
    }
}

// ---------------------------------------------------------------------------
// Object members as a sorted map
// ---------------------------------------------------------------------------

/// Inserts member `k` with value `v` into a member list kept in key order:
/// an existing member `k` gets the new value, otherwise the member goes
/// before the first greater key.
pub open spec fn member_insert(m: Seq<(Seq<char>, JsonSpec)>, k: Seq<char>, v: JsonSpec) -> Seq<(Seq<char>, JsonSpec)>
    decreases m.len(),
{
    if m.len() == 0 {
        seq![(k, v)]
    } else if m[0].0 == k {
        m.update(0, (k, v))
    } else if str_lt(k, m[0].0) {
        seq![(k, v)] + m
    } else {
        seq![m[0]] + member_insert(m.drop_first(), k, v)
    }
}

/// Inserts the members of `n`, in order, into `e`.
pub open spec fn members_merge(e: Seq<(Seq<char>, JsonSpec)>, n: Seq<(Seq<char>, JsonSpec)>) -> Seq<(Seq<char>, JsonSpec)>
    decreases n.len(),
{
    if n.len() == 0 {
        e
    } else {
        members_merge(member_insert(e, n[0].0, n[0].1), n.drop_first())
    }
}

/// Merging `n` into `e`: two objects are merged member by member with the members
/// of `n` winning; in every other case the result is `n`.
pub open spec fn json_merge(e: JsonSpec, n: JsonSpec) -> JsonSpec {
    match (e, n) {
        (JsonSpec::Object(a), JsonSpec::Object(b)) => JsonSpec::Object(members_merge(a, b)),
        _ => n,
    }
}

/// After an insert, the inserted key has the new value and every other key keeps its value.
pub proof fn lemma_member_insert_lookup(m: Seq<(Seq<char>, JsonSpec)>, k: Seq<char>, v: JsonSpec, q: Seq<char>)
    ensures
        member_lookup(member_insert(m, k, v), q) == if q == k {
            Some(v)
        } else {
            member_lookup(m, q)
        },
    decreases m.len(),
{
    if m.len() == 0 {
        assert(member_insert(m, k, v).drop_first().len() == 0);
    } else if m[0].0 == k {
        let r = member_insert(m, k, v);
        assert(r.drop_first() =~= m.drop_first());
    } else if str_lt(k, m[0].0) {
        let r = member_insert(m, k, v);
        assert(r.drop_first() =~= m);
    } else {
        let r = member_insert(m, k, v);
        assert(r.drop_first() =~= member_insert(m.drop_first(), k, v));
        lemma_member_insert_lookup(m.drop_first(), k, v, q);
    }
}

/// Inserting into a list in ascending key order keeps it in ascending key order.
pub proof fn lemma_member_insert_sorted(m: Seq<(Seq<char>, JsonSpec)>, k: Seq<char>, v: JsonSpec)
    requires
        keys_sorted(m),
    ensures
        keys_sorted(member_insert(m, k, v)),
        forall|j: int|
            0 <= j < member_insert(m, k, v).len() ==> #[trigger] member_insert(m, k, v)[j].0 == k
                || exists|i: int| 0 <= i < m.len() && m[i].0 == member_insert(m, k, v)[j].0,
    decreases m.len(),
{
    let r = member_insert(m, k, v);
    if m.len() == 0 {
    } else if m[0].0 == k {
        assert forall|i: int, j: int| 0 <= i < j < r.len() implies str_lt(#[trigger] r[i].0, #[trigger] r[j].0) by {
            assert(m[i].0 == r[i].0);
            assert(m[j].0 == r[j].0);
        }
        assert forall|j: int| 0 <= j < r.len() implies #[trigger] r[j].0 == k || exists|i: int|
            0 <= i < m.len() && m[i].0 == r[j].0 by {
            assert(m[j].0 == r[j].0);
        }
    } else if str_lt(k, m[0].0) {
        assert forall|i: int, j: int| 0 <= i < j < r.len() implies str_lt(#[trigger] r[i].0, #[trigger] r[j].0) by {
            if i == 0 {
                if j - 1 > 0 {
                    lemma_str_lt_transitive(k, m[0].0, m[j - 1].0);
                }
            } else {
                assert(r[i].0 == m[i - 1].0);
            }
        }
        assert forall|j: int| 0 <= j < r.len() implies #[trigger] r[j].0 == k || exists|i: int|
            0 <= i < m.len() && m[i].0 == r[j].0 by {
            if j > 0 {
                assert(m[j - 1].0 == r[j].0);
            }
        }
    } else {
        let t = m.drop_first();
        assert(keys_sorted(t)) by {
            assert forall|i: int, j: int| 0 <= i < j < t.len() implies str_lt(#[trigger] t[i].0, #[trigger] t[j].0) by {
                assert(t[i] == m[i + 1]);
                assert(t[j] == m[j + 1]);
            }
        }
        lemma_member_insert_sorted(t, k, v);
        let rt = member_insert(t, k, v);
        assert(r =~= seq![m[0]] + rt);
        lemma_str_lt_total(k, m[0].0);
        assert forall|i: int, j: int| 0 <= i < j < r.len() implies str_lt(#[trigger] r[i].0, #[trigger] r[j].0) by {
            if i == 0 {
                let x = rt[j - 1].0;
                assert(r[j].0 == x);
                if x == k {
                } else {
                    let w = choose|w: int| 0 <= w < t.len() && t[w].0 == x;
                    assert(t[w] == m[w + 1]);
                }
            } else {
                assert(r[i].0 == rt[i - 1].0);
                assert(r[j].0 == rt[j - 1].0);
            }
        }
        assert forall|j: int| 0 <= j < r.len() implies #[trigger] r[j].0 == k || exists|i: int|
            0 <= i < m.len() && m[i].0 == r[j].0 by {
            if j > 0 {
                assert(r[j].0 == rt[j - 1].0);
                if rt[j - 1].0 != k {
                    let w = choose|w: int| 0 <= w < t.len() && t[w].0 == rt[j - 1].0;
                    assert(t[w] == m[w + 1]);
                }
            }
        }
    }
}

/// Merging member lists in ascending key order gives a list in ascending key order.
pub proof fn lemma_members_merge_sorted(e: Seq<(Seq<char>, JsonSpec)>, n: Seq<(Seq<char>, JsonSpec)>)
    requires
        keys_sorted(e),
    ensures
        keys_sorted(members_merge(e, n)),
    decreases n.len(),
{
    if n.len() > 0 {
        lemma_member_insert_sorted(e, n[0].0, n[0].1);
        lemma_members_merge_sorted(member_insert(e, n[0].0, n[0].1), n.drop_first());
    }
}

/// A key absent from a sorted list is absent from its tail.
proof fn lemma_sorted_tail_lookup(n: Seq<(Seq<char>, JsonSpec)>, q: Seq<char>)
    requires
        keys_sorted(n),
        n.len() > 0,
        n[0].0 == q,
    ensures
        member_lookup(n.drop_first(), q) is None,
{
    lemma_lookup_absent(n.drop_first(), q);
    assert forall|i: int| 0 <= i < n.drop_first().len() implies #[trigger] n.drop_first()[i].0 != q by {
        assert(n.drop_first()[i] == n[i + 1]);
        lemma_str_lt_irreflexive(q);
    }
}

/// A key that no member has is not found.
proof fn lemma_lookup_absent(m: Seq<(Seq<char>, JsonSpec)>, q: Seq<char>)
    ensures
        (forall|i: int| 0 <= i < m.len() ==> #[trigger] m[i].0 != q) ==> member_lookup(m, q) is None,
    decreases m.len(),
{
    if m.len() > 0 {
        lemma_lookup_absent(m.drop_first(), q);
        if forall|i: int| 0 <= i < m.len() ==> #[trigger] m[i].0 != q {
            assert forall|i: int| 0 <= i < m.drop_first().len() implies #[trigger] m.drop_first()[i].0 != q by {
                assert(m.drop_first()[i] == m[i + 1]);
            }
        }
    }
}

/// Lookup in a merge: a key of `n` has its value from `n`; any other key keeps its
/// value from `e`. (`n` is the member list of an object: no key twice.)
pub proof fn lemma_members_merge_lookup(e: Seq<(Seq<char>, JsonSpec)>, n: Seq<(Seq<char>, JsonSpec)>, q: Seq<char>)
    requires
        keys_sorted(n),
    ensures
        member_lookup(members_merge(e, n), q) == match member_lookup(n, q) {
            Some(v) => Some(v),
            None => member_lookup(e, q),
        },
    decreases n.len(),
{
    if n.len() > 0 {
        let t = n.drop_first();
        assert(keys_sorted(t)) by {
            assert forall|i: int, j: int| 0 <= i < j < t.len() implies str_lt(#[trigger] t[i].0, #[trigger] t[j].0) by {
                assert(t[i] == n[i + 1]);
                assert(t[j] == n[j + 1]);
            }
        }
        let e2 = member_insert(e, n[0].0, n[0].1);
        lemma_members_merge_lookup(e2, t, q);
        lemma_member_insert_lookup(e, n[0].0, n[0].1, q);
        if n[0].0 == q {
            lemma_sorted_tail_lookup(n, q);
        }
    }
}

/// Applying the same update twice leaves every field as applying it once (so a
/// replayed update changes nothing further).
pub proof fn lemma_merge_twice_same_fields(e: JsonSpec, n: JsonSpec, q: Seq<char>)
    requires
        n matches JsonSpec::Object(b) ==> keys_sorted(b),
    ensures
        get_field(json_merge(json_merge(e, n), n), q) == get_field(json_merge(e, n), q),
{
    lemma_merge_precedence(e, n, q);
    lemma_merge_precedence(json_merge(e, n), n, q);
}

/// Merging an object into an object leaves every key of the new object with the
/// new value and every other key with its old value; any other merge gives the new value.
pub proof fn lemma_merge_precedence(e: JsonSpec, n: JsonSpec, q: Seq<char>)
    requires
        n matches JsonSpec::Object(b) ==> keys_sorted(b),
    ensures
        (e is Object && n is Object) ==> get_field(json_merge(e, n), q) == match get_field(n, q) {
            Some(v) => Some(v),
            None => get_field(e, q),
        },
        !(e is Object && n is Object) ==> json_merge(e, n) == n,
{
    if let (JsonSpec::Object(a), JsonSpec::Object(b)) = (e, n) {
        lemma_members_merge_lookup(a, b, q);
    }
}

// ---------------------------------------------------------------------------
// Executable helpers
// ---------------------------------------------------------------------------

/// The characters of a string, as a vector.
pub fn chars_of(s: &str) -> (r: Vec<char>)
    ensures
        r@ == s@,
{
    broadcast use vstd::string::group_string_axioms;
    let mut out: Vec<char> = Vec::new();
    for c in it: s.chars()
        invariant
            out@ == it.seq().take(it.index() as int),
            it.seq() == s@,
    {
        out.push(c);
        assert(it.seq().take(it.index() + 1) =~= out@);
    }
    assert(out@ =~= s@);
    out
}

proof fn lemma_str_lt_step(a: Seq<char>, b: Seq<char>, i: int)
    requires
        0 <= i < a.len(),
        i < b.len(),
        a[i] == b[i],
    ensures
        str_lt(a.skip(i), b.skip(i)) == str_lt(a.skip(i + 1), b.skip(i + 1)),
{
    assert(a.skip(i).drop_first() =~= a.skip(i + 1));
    assert(b.skip(i).drop_first() =~= b.skip(i + 1));
}

/// Whether `a` comes strictly before `b` in the lexicographic order.
pub fn chars_less(a: &Vec<char>, b: &Vec<char>) -> (r: bool)
    ensures
        r == str_lt(a@, b@),
{
    let mut i: usize = 0;
    assert(a@.skip(0) =~= a@);
    assert(b@.skip(0) =~= b@);
    while i < a.len() && i < b.len()
        invariant
            i <= a@.len(),
            i <= b@.len(),
            str_lt(a@, b@) == str_lt(a@.skip(i as int), b@.skip(i as int)),
        decreases a@.len() - i,
    {
        if a[i] != b[i] {
            assert(a@.skip(i as int)[0] == a@[i as int]);
            assert(b@.skip(i as int)[0] == b@[i as int]);
            return a[i] < b[i];
        }
        proof {
            lemma_str_lt_step(a@, b@, i as int);
        }
        i += 1;
    }
    i < b.len()
}

/// Whether two character sequences are equal.
pub fn chars_equal(a: &Vec<char>, b: &Vec<char>) -> (r: bool)
    ensures
        r == (a@ == b@),
{
    if a.len() != b.len() {
        return false;
    }
    let mut i: usize = 0;
    while i < a.len()
        invariant
            i <= a@.len(),
            a@.len() == b@.len(),
            forall|j: int| 0 <= j < i ==> a@[j] == b@[j],
        decreases a@.len() - i,
    {
        if a[i] != b[i] {
            return false;
        }
        i += 1;
    }
    assert(a@ =~= b@);
    true
}

/// The sequence without its first character.
pub fn drop_first_char(v: &Vec<char>) -> (r: Vec<char>)
    requires
        v@.len() > 0,
    ensures
        r@ == v@.drop_first(),
{
    let mut out: Vec<char> = Vec::new();
    let mut i: usize = 1;
    while i < v.len()
        invariant
            1 <= i <= v@.len(),
            out@ == v@.subrange(1, i as int),
        decreases v@.len() - i,
    {
        out.push(v[i]);
        proof {
            assert(v@.subrange(1, i + 1) =~= v@.subrange(1, i as int).push(v@[i as int]));
        }
        i += 1;
    }
    assert(out@ =~= v@.drop_first());
    out
}

/// The member `field` of an object value; nothing for any other value.
pub fn get_field_value<'a>(v: &'a JsonValue, field: &str) -> (r: Option<&'a JsonValue>)
    ensures
        match r {
            Some(x) => get_field(v@, field@) == Some(x@),
            None => get_field(v@, field@) is None,
        },
{
    match v {
        JsonValue::Object(m) => {
            let key = field.to_owned();
            let mut i: usize = 0;
            assert(json_view(*v)->Object_0.skip(0) =~= json_view(*v)->Object_0);
            while i < m.len()
                invariant
                    i <= m@.len(),
                    key@ == field@,
                    *v == JsonValue::Object(*m),
                    get_field(v@, field@) == member_lookup(
                        json_view(*v)->Object_0.skip(i as int),
                        field@,
                    ),
                decreases m@.len() - i,
            {
                proof {
                    let ms = json_view(*v)->Object_0;
                    assert(ms.skip(i as int)[0] == ms[i as int]);
                    assert(ms.skip(i as int).drop_first() =~= ms.skip(i + 1));
                }
                if m[i].0 == key {
                    return Some(&m[i].1);
                }
                i += 1;
            }
            None
        },
        _ => None,
    }
}

/// Whether two JSON values are equal.
pub fn json_equal(a: &JsonValue, b: &JsonValue) -> (r: bool)
    ensures
        r == (a@ == b@),
    decreases a,
{
    match (a, b) {
        (JsonValue::Null, JsonValue::Null) => true,
        (JsonValue::Bool(x), JsonValue::Bool(y)) => *x == *y,
        (JsonValue::Number(x), JsonValue::Number(y)) => x.text == y.text && x.float_rank == y.float_rank,
        (JsonValue::String(x), JsonValue::String(y)) => *x == *y,
        (JsonValue::Array(x), JsonValue::Array(y)) => {
            if x.len() != y.len() {
                assert(json_view(*a)->Array_0.len() != json_view(*b)->Array_0.len());
                return false;
            }
            let mut i: usize = 0;
            while i < x.len()
                invariant
                    i <= x@.len(),
                    x@.len() == y@.len(),
                    *a == JsonValue::Array(*x),
                    *b == JsonValue::Array(*y),
                    forall|j: int| 0 <= j < i ==> json_view(#[trigger] x@[j]) == json_view(y@[j]),
                decreases x@.len() - i,
            {
                proof {
                    assert(decreases_to!(*a => (*a)->Array_0));
                    assert(decreases_to!(*x => x@));
                    assert(decreases_to!(x@ => x@[i as int]));
                }
                if !json_equal(&x[i], &y[i]) {
                    proof {
                        let (va, vb) = (json_view(*a)->Array_0, json_view(*b)->Array_0);
                        assert(va[i as int] != vb[i as int]);
                    }
                    return false;
                }
                i += 1;
            }
            proof {
                let (va, vb) = (json_view(*a)->Array_0, json_view(*b)->Array_0);
                assert(va =~= vb);
            }
            true
        },
        (JsonValue::Object(x), JsonValue::Object(y)) => {
            if x.len() != y.len() {
                assert(json_view(*a)->Object_0.len() != json_view(*b)->Object_0.len());
                return false;
            }
            let mut i: usize = 0;
            while i < x.len()
                invariant
                    i <= x@.len(),
                    x@.len() == y@.len(),
                    *a == JsonValue::Object(*x),
                    *b == JsonValue::Object(*y),
                    forall|j: int|
                        0 <= j < i ==> (#[trigger] x@[j]).0@ == y@[j].0@ && json_view(x@[j].1)
                            == json_view(y@[j].1),
                decreases x@.len() - i,
            {
                proof {
                    assert(decreases_to!(*a => (*a)->Object_0));
                    assert(decreases_to!(*x => x@));
                    assert(decreases_to!(x@ => x@[i as int]));
                    assert(decreases_to!(x@[i as int] => x@[i as int].1));
                }
                if !(x[i].0 == y[i].0) || !json_equal(&x[i].1, &y[i].1) {
                    proof {
                        let (va, vb) = (json_view(*a)->Object_0, json_view(*b)->Object_0);
                        assert(va[i as int] != vb[i as int]);
                    }
                    return false;
                }
                i += 1;
            }
            proof {
                let (va, vb) = (json_view(*a)->Object_0, json_view(*b)->Object_0);
                assert(va =~= vb);
            }
            true
        },
        _ => false,
    }
}

/// The view of a member list.
pub open spec fn members_spec(m: Seq<(String, JsonValue)>) -> Seq<(Seq<char>, JsonSpec)> {
    Seq::new(m.len(), |i: int| (m[i].0@, json_view(m[i].1)))
}

pub proof fn lemma_object_view(m: Vec<(String, JsonValue)>)
    ensures
        json_view(JsonValue::Object(m)) == JsonSpec::Object(members_spec(m@)),
{
    assert(json_view(JsonValue::Object(m))->Object_0 =~= members_spec(m@));
}

proof fn lemma_member_insert_at(ms: Seq<(Seq<char>, JsonSpec)>, k: Seq<char>, v: JsonSpec, i: int)
    requires
        0 <= i <= ms.len(),
        forall|j: int| 0 <= j < i ==> str_lt(#[trigger] ms[j].0, k),
        i < ms.len() ==> !str_lt(ms[i].0, k),
    ensures
        i < ms.len() && ms[i].0 == k ==> member_insert(ms, k, v) == ms.update(i, (k, v)),
        !(i < ms.len() && ms[i].0 == k) ==> member_insert(ms, k, v) == ms.insert(i, (k, v)),
    decreases i,
{
    if i == 0 {
        if ms.len() == 0 {
            assert(ms.insert(0, (k, v)) =~= seq![(k, v)]);
        } else if ms[0].0 == k {
        } else {
            lemma_str_lt_total(k, ms[0].0);
            assert(ms.insert(0, (k, v)) =~= seq![(k, v)] + ms);
        }
    } else {
        lemma_str_lt_irreflexive(k);
        lemma_str_lt_asymmetric(ms[0].0, k);
        let t = ms.drop_first();
        assert forall|j: int| 0 <= j < i - 1 implies str_lt(#[trigger] t[j].0, k) by {
            assert(t[j] == ms[j + 1]);
        }
        lemma_member_insert_at(t, k, v, i - 1);
        if i < ms.len() && ms[i].0 == k {
            assert(seq![ms[0]] + t.update(i - 1, (k, v)) =~= ms.update(i, (k, v)));
        } else {
            assert(seq![ms[0]] + t.insert(i - 1, (k, v)) =~= ms.insert(i, (k, v)));
        }
    }
}

/// Inserts a member into a member list kept in key order.
pub fn insert_member(members: &mut Vec<(String, JsonValue)>, key: String, value: JsonValue)
    ensures
        members_spec(final(members)@) == member_insert(members_spec(old(members)@), key@, value@),
{
    let kc = chars_of(key.as_str());
    let ghost ms = members_spec(members@);
    let mut i: usize = 0;
    while i < members.len()
        invariant
            i <= members@.len(),
            ms == members_spec(members@),
            kc@ == key@,
            forall|j: int| 0 <= j < i ==> str_lt(#[trigger] ms[j].0, key@),
        ensures
            i <= members@.len(),
            forall|j: int| 0 <= j < i ==> str_lt(#[trigger] ms[j].0, key@),
            i < members@.len() ==> !str_lt(ms[i as int].0, key@),
        decreases members@.len() - i,
    {
        let mc = chars_of(members[i].0.as_str());
        if !chars_less(&mc, &kc) {
            break;
        }
        i += 1;
    }
    proof {
        lemma_member_insert_at(ms, key@, value@, i as int);
    }
    if i < members.len() && members[i].0 == key {
        members.remove(i);
        members.insert(i, (key, value));
        assert(members_spec(members@) =~= ms.update(i as int, (key@, value@)));
    } else {
        members.insert(i, (key, value));
        assert(members_spec(members@) =~= ms.insert(i as int, (key@, value@)));
    }
}

impl JsonNumber {
    /// A copy of the number.
    pub fn copy_number(&self) -> (r: JsonNumber)
        ensures
            r@ == self@,
    {
        JsonNumber { text: self.text.clone(), float_rank: self.float_rank }
    }
}

impl JsonValue {
    /// A deep copy of the value.
    pub fn clone_value(&self) -> (r: JsonValue)
        ensures
            r@ == self@,
        decreases self,
    {
        match self {
            JsonValue::Null => JsonValue::Null,
            JsonValue::Bool(b) => JsonValue::Bool(*b),
            JsonValue::Number(n) => JsonValue::Number(n.copy_number()),
            JsonValue::String(s) => JsonValue::String(s.clone()),
            JsonValue::Array(a) => {
                let mut out: Vec<JsonValue> = Vec::new();
                let mut i: usize = 0;
                while i < a.len()
                    invariant
                        i <= a@.len(),
                        *self == JsonValue::Array(*a),
                        out@.len() == i,
                        forall|j: int| 0 <= j < i ==> json_view(#[trigger] out@[j]) == json_view(a@[j]),
                    decreases a@.len() - i,
                {
                    proof {
                        assert(*self == JsonValue::Array(*a));
                        assert(decreases_to!(*self => (*self)->Array_0));
                        assert(decreases_to!(*a => a@));
                        assert(decreases_to!(a@ => a@[i as int]));
                    }
                    let c = a[i].clone_value();
                    out.push(c);
                    i += 1;
                }
                let r = JsonValue::Array(out);
                assert(json_view(r) == json_view(*self)) by {
                    if let JsonSpec::Array(x) = json_view(r) {
                        if let JsonSpec::Array(y) = json_view(*self) {
                            assert(x =~= y);
                        }
                    }
                }
                r
            },
            JsonValue::Object(m) => {
                let mut out: Vec<(String, JsonValue)> = Vec::new();
                let mut i: usize = 0;
                while i < m.len()
                    invariant
                        i <= m@.len(),
                        *self == JsonValue::Object(*m),
                        out@.len() == i,
                        forall|j: int|
                            0 <= j < i ==> (#[trigger] out@[j]).0@ == m@[j].0@ && json_view(out@[j].1)
                                == json_view(m@[j].1),
                    decreases m@.len() - i,
                {
                    let k = m[i].0.clone();
                    proof {
                        assert(*self == JsonValue::Object(*m));
                        assert(decreases_to!(*self => (*self)->Object_0));
                        assert(decreases_to!(*m => m@));
                        assert(decreases_to!(m@ => m@[i as int]));
                        assert(decreases_to!(m@[i as int] => m@[i as int].1));
                    }
                    let c = m[i].1.clone_value();
                    out.push((k, c));
                    i += 1;
                }
                let r = JsonValue::Object(out);
                assert(json_view(r) == json_view(*self)) by {
                    if let JsonSpec::Object(x) = json_view(r) {
                        if let JsonSpec::Object(y) = json_view(*self) {
                            assert(x =~= y);
                        }
                    }
                }
                r
            },
        }
    }
}

} // verus!
