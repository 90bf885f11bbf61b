//! The wait-for graph of lock requests and the search for deadlocks in it.
//!
//! The graph maps each lock holder to the requesters waiting for it. An edge
//! runs from a holder to each of its waiters; a deadlock is a cycle of edges:
//! transactions each waiting, through the others, for itself.
use std::collections::{HashMap, HashSet};

use vstd::prelude::*;

use crate::error::SentinelError;
use vstd::std_specs::iter::IteratorSpec;

verus! {

broadcast use {vstd::std_specs::hash::group_hash_axioms, vstd::set_lib::group_set_lib_default};

/// `waiter` waits for a lock that `holder` holds.
pub open spec fn waits_for(g: Map<u128, Seq<u128>>, holder: u128, waiter: u128) -> bool {
    g.contains_key(holder) && g[holder].contains(waiter)
}

/// Entry `i` of `p` is joined to entry `i + 1` by an edge.
pub open spec fn walk_step(g: Map<u128, Seq<u128>>, p: Seq<u128>, i: int) -> bool {
    waits_for(g, p[i], p[i + 1])
}

/// Consecutive entries of `p` are joined by edges of the graph.
pub open spec fn is_walk(g: Map<u128, Seq<u128>>, p: Seq<u128>) -> bool {
    forall|i: int| 0 <= i < p.len() - 1 ==> #[trigger] walk_step(g, p, i)
}

/// Requests that do not belong to `requester_id`.
pub open spec fn not_of(requester_id: u128) -> spec_fn(LockRequest) -> bool {
    |q: LockRequest| q.requester_id != requester_id
}

/// There is a walk of at least one edge from `a` to `b`.
pub open spec fn reaches(g: Map<u128, Seq<u128>>, a: u128, b: u128) -> bool {
    exists|p: Seq<u128>| p.len() >= 2 && p[0] == a && p[p.len() - 1] == b && #[trigger] is_walk(g, p)
}

/// `x` lies on a cycle: it waits, through others, for itself.
pub open spec fn on_cycle(g: Map<u128, Seq<u128>>, x: u128) -> bool {
    reaches(g, x, x)
}

/// The graph holds a cycle.
pub open spec fn has_deadlock(g: Map<u128, Seq<u128>>) -> bool {
    exists|x: u128| #[trigger] on_cycle(g, x)
}

/// The sequence without any occurrence of `x`, order kept.
pub open spec fn without(s: Seq<u128>, x: u128) -> Seq<u128>
    decreases s.len(),
{
    if s.len() == 0 {
        s
    } else if s.last() == x {
        without(s.drop_last(), x)
    } else {
        without(s.drop_last(), x).push(s.last())
    }
}

/// The graph (waiter lists as sequences) after `requester` starts to wait for `holder`.
pub open spec fn graph_after_wait(m: Map<u128, Seq<u128>>, requester: u128, holder: u128) -> Map<u128, Seq<u128>> {
    m.insert(
        holder,
        if m.contains_key(holder) {
            m[holder].push(requester)
        } else {
            seq![requester]
        },
    )
}

/// The graph (waiter lists as sequences) after `requester` stops waiting for
/// `holder`; a holder left with no waiters leaves the graph.
pub open spec fn graph_after_unwait(m: Map<u128, Seq<u128>>, requester: u128, holder: u128) -> Map<u128, Seq<u128>> {
    if !m.contains_key(holder) {
        m
    } else if without(m[holder], requester).len() == 0 {
        m.remove(holder)
    } else {
        m.insert(holder, without(m[holder], requester))
    }
}

/// The graph with each waiter list seen as a sequence.
pub open spec fn graph_seqs(g: Map<u128, Vec<u128>>) -> Map<u128, Seq<u128>> {
    g.map_values(|v: Vec<u128>| v@)
}

// ---------------------------------------------------------------------------
// Laws of the wait-for graph
// ---------------------------------------------------------------------------

proof fn lemma_without_absent(s: Seq<u128>, x: u128)
    ensures
        !without(s, x).contains(x),
    decreases s.len(),
{
    if s.len() > 0 {
        lemma_without_absent(s.drop_last(), x);
        let w = without(s.drop_last(), x);
        if s.last() != x {
            assert forall|i: int| 0 <= i < w.push(s.last()).len() implies w.push(s.last())[i] != x by {
                if i < w.len() {
                    assert(w.push(s.last())[i] == w[i]);
                }
            }
        }
    }
}

proof fn lemma_without_keeps_others(s: Seq<u128>, x: u128, w: u128)
    requires
        w != x,
    ensures
        without(s, x).contains(w) <==> s.contains(w),
    decreases s.len(),
{
    if s.len() > 0 {
        lemma_without_keeps_others(s.drop_last(), x, w);
        let w0 = without(s.drop_last(), x);
        if s.contains(w) {
            let i = choose|i: int| 0 <= i < s.len() && s[i] == w;
            if i < s.len() - 1 {
                assert(s.drop_last()[i] == w);
            }
        }
        if s.last() != x {
            if w0.push(s.last()).contains(w) {
                let i = choose|i: int| 0 <= i < w0.push(s.last()).len() && w0.push(s.last())[i] == w;
                if i < w0.len() {
                    assert(w0[i] == w);
                }
            }
            if w0.contains(w) {
                let i = choose|i: int| 0 <= i < w0.len() && w0[i] == w;
                assert(w0.push(s.last())[i] == w);
            }
            if s.last() == w {
                assert(w0.push(s.last())[w0.len() as int] == w);
            }
        }
        if s.drop_last().contains(w) {
            let i = choose|i: int| 0 <= i < s.drop_last().len() && s.drop_last()[i] == w;
            assert(s[i] == w);
        }
    }
}

/// Stopping `requester`'s wait for `holder` leaves every other wait as it was.
proof fn lemma_unwait_keeps_others(m: Map<u128, Seq<u128>>, requester: u128, holder: u128, h: u128, w: u128)
    requires
        w != requester || h != holder,
    ensures
        waits_for(graph_after_unwait(m, requester, holder), h, w) <==> waits_for(m, h, w),
{
    if h == holder && m.contains_key(holder) {
        lemma_without_keeps_others(m[holder], requester, w);
    }
}

/// After `requester` stops waiting for `holder`, it no longer waits for `holder`.
pub proof fn lemma_unwait_removes_wait(m: Map<u128, Seq<u128>>, requester: u128, holder: u128)
    ensures
        !(graph_after_unwait(m, requester, holder).contains_key(holder) && graph_after_unwait(
            m,
            requester,
            holder,
        )[holder].contains(requester)),
{
    if m.contains_key(holder) {
        lemma_without_absent(m[holder], requester);
    }
}

/// Starting to wait and then stopping leaves the graph as stopping alone would:
/// in particular a holder that had no waiters has none again.
pub proof fn lemma_wait_then_unwait(m: Map<u128, Seq<u128>>, requester: u128, holder: u128)
    ensures
        graph_after_unwait(graph_after_wait(m, requester, holder), requester, holder) == graph_after_unwait(
            m,
            requester,
            holder,
        ),
        !m.contains_key(holder) ==> graph_after_unwait(graph_after_wait(m, requester, holder), requester, holder)
            == m,
{
    let w = graph_after_wait(m, requester, holder);
    if m.contains_key(holder) {
        assert(w[holder].drop_last() =~= m[holder]);
        assert(without(w[holder], requester) == without(m[holder], requester));
        assert(graph_after_unwait(w, requester, holder) =~= graph_after_unwait(m, requester, holder));
    } else {
        let one = seq![requester];
        assert(w[holder] == one);
        assert(one.drop_last() =~= Seq::<u128>::empty());
        assert(without(Seq::<u128>::empty(), requester).len() == 0);
        assert(without(one, requester) == without(one.drop_last(), requester));
        assert(without(w[holder], requester).len() == 0);
        assert(graph_after_unwait(w, requester, holder) =~= m);
    }
}

/// A transaction that the deadlock check flags makes the graph deadlocked, so
/// the search for deadlocked transactions finds at least one.
pub proof fn lemma_detected_deadlock_is_found(g: Map<u128, Seq<u128>>, requester: u128)
    requires
        on_cycle(g, requester),
    ensures
        has_deadlock(g),
{
}

// ---------------------------------------------------------------------------
// Lemmas on walks
// ---------------------------------------------------------------------------

proof fn lemma_edge_reaches(g: Map<u128, Seq<u128>>, a: u128, b: u128)
    requires
        waits_for(g, a, b),
    ensures
        reaches(g, a, b),
{
    let p = seq![a, b];
    assert(is_walk(g, p)) by {
        assert forall|i: int| 0 <= i < p.len() - 1 implies #[trigger] walk_step(g, p, i) by {
            assert(i == 0);
        }
    }
}

proof fn lemma_reaches_extend(g: Map<u128, Seq<u128>>, a: u128, b: u128, c: u128)
    requires
        reaches(g, a, b),
        waits_for(g, b, c),
    ensures
        reaches(g, a, c),
{
    let p = choose|p: Seq<u128>| p.len() >= 2 && p[0] == a && p[p.len() - 1] == b && #[trigger] is_walk(g, p);
    let q = p.push(c);
    assert(is_walk(g, q)) by {
        assert forall|i: int| 0 <= i < q.len() - 1 implies #[trigger] walk_step(g, q, i) by {
            if i < p.len() - 1 {
                assert(walk_step(g, p, i));
            }
        }
    }
}

proof fn lemma_walk_stays_in_closed_set(g: Map<u128, Seq<u128>>, vs: Set<u128>, r: u128, p: Seq<u128>, k: int)
    requires
        vs.contains(r),
        forall|v: u128, w: u128|
            vs.contains(v) && #[trigger] waits_for(g, v, w) ==> w != r && (vs.contains(w) || !g.contains_key(w)),
        p.len() >= 2,
        p[0] == r,
        is_walk(g, p),
        0 <= k <= p.len() - 2,
    ensures
        vs.contains(p[k]),
    decreases k,
{
    if k > 0 {
        lemma_walk_stays_in_closed_set(g, vs, r, p, k - 1);
        assert(walk_step(g, p, k - 1));
        assert(walk_step(g, p, k));
    }
}

/// In a set closed under edges (apart from nodes with no edges out) into which
/// `r` never has an edge, a walk from `r` never returns to `r`.
proof fn lemma_closed_set_no_return(g: Map<u128, Seq<u128>>, vs: Set<u128>, r: u128)
    requires
        vs.contains(r),
        forall|v: u128, w: u128|
            vs.contains(v) && #[trigger] waits_for(g, v, w) ==> w != r && (vs.contains(w) || !g.contains_key(w)),
    ensures
        !reaches(g, r, r),
{
    if reaches(g, r, r) {
        let p = choose|p: Seq<u128>| p.len() >= 2 && p[0] == r && p[p.len() - 1] == r && #[trigger] is_walk(g, p);
        lemma_walk_stays_in_closed_set(g, vs, r, p, p.len() - 2);
        assert(walk_step(g, p, p.len() - 2));
    }
}

// ---------------------------------------------------------------------------
// Colouring invariant of the depth-first search
// ---------------------------------------------------------------------------

/// Finished ("black") nodes are the visited nodes off the current path. Every
/// edge out of a black node leads to a black node, and no black node is on a cycle.
pub open spec fn black_invariant(g: Map<u128, Seq<u128>>, visited: Set<u128>, current: Set<u128>) -> bool {
    &&& forall|b: u128, w: u128|
        visited.contains(b) && !current.contains(b) && #[trigger] waits_for(g, b, w) ==> visited.contains(w)
            && !current.contains(w)
    &&& forall|b: u128| visited.contains(b) && !current.contains(b) ==> !#[trigger] on_cycle(g, b)
}

/// A walk that starts at a black node stays among black nodes.
proof fn lemma_black_walk(g: Map<u128, Seq<u128>>, visited: Set<u128>, current: Set<u128>, p: Seq<u128>, k: int)
    requires
        black_invariant(g, visited, current),
        is_walk(g, p),
        0 <= k < p.len(),
        visited.contains(p[0]),
        !current.contains(p[0]),
    ensures
        visited.contains(p[k]) && !current.contains(p[k]),
    decreases k,
{
    if k > 0 {
        lemma_black_walk(g, visited, current, p, k - 1);
        assert(walk_step(g, p, k - 1));
    }
}

/// Once every edge out of `x` leads to a black node, `x` is on no cycle.
proof fn lemma_finished_node_acyclic(g: Map<u128, Seq<u128>>, visited: Set<u128>, current: Set<u128>, x: u128)
    requires
        black_invariant(g, visited, current),
        current.contains(x),
        forall|w: u128| #[trigger] waits_for(g, x, w) ==> visited.contains(w) && !current.contains(w),
    ensures
        !on_cycle(g, x),
{
    if on_cycle(g, x) {
        let p = choose|p: Seq<u128>| p.len() >= 2 && p[0] == x && p[p.len() - 1] == x && #[trigger] is_walk(g, p);
        assert(walk_step(g, p, 0));
        let q = p.subrange(1, p.len() as int);
        assert(is_walk(g, q)) by {
            assert forall|i: int| 0 <= i < q.len() - 1 implies #[trigger] walk_step(g, q, i) by {
                assert(walk_step(g, p, i + 1));
            }
        }
        lemma_black_walk(g, visited, current, q, q.len() - 1);
        assert(q[q.len() - 1] == x);
    }
}

/// A set of nodes that grows by one node of the graph leaves fewer graph nodes outside it.
proof fn lemma_fewer_unvisited(dom: Set<u128>, v0: Set<u128>, v1: Set<u128>, x: u128)
    requires
        dom.finite(),
        v0.subset_of(v1),
        dom.contains(x),
        !v0.contains(x),
        v1.contains(x),
    ensures
        dom.difference(v1).len() < dom.difference(v0).len(),
{
    assert(dom.difference(v1).subset_of(dom.difference(v0).remove(x)));
    vstd::set_lib::lemma_len_subset(dom.difference(v1), dom.difference(v0).remove(x));
}

/// A set of nodes that grows leaves no more graph nodes outside it.
proof fn lemma_no_more_unvisited(dom: Set<u128>, v0: Set<u128>, v1: Set<u128>)
    requires
        dom.finite(),
        v0.subset_of(v1),
    ensures
        dom.difference(v1).len() <= dom.difference(v0).len(),
{
    vstd::set_lib::lemma_len_subset(dom.difference(v1), dom.difference(v0));
}

// ---------------------------------------------------------------------------
// Lock requests
// ---------------------------------------------------------------------------

/// Strategy of a lock: exclusive for writers, shared for readers.
#[derive(Debug, Clone, Copy, PartialEq, Eq, Hash, Structural)]
pub enum LockStrategy {
    /// Single writer, no concurrent readers.
    Exclusive,
    /// Multiple concurrent readers, no writers.
    Shared,
}

/// A pending lock request.
#[derive(Debug, Clone)]
pub struct LockRequest {
    /// Path being requested.
    pub path: String,
    /// Strategy requested.
    pub strategy: LockStrategy,
    /// When the request started, in milliseconds of a monotonic clock.
    pub started_at_ms: u64,
    /// Timeout of the request, in milliseconds.
    pub timeout_ms: u64,
    /// ID of the requester.
    pub requester_id: u128,
}

/// Deadlock detection state: who waits for whom, the pending requests by path,
/// and the active locks by path.
pub struct DeadlockDetector {
    /// Wait-for graph: holder ID to the IDs of the requesters waiting for it.
    pub wait_graph: HashMap<u128, Vec<u128>>,
    /// Pending lock requests, by path; no path twice.
    pub pending_requests: Vec<(String, Vec<LockRequest>)>,
    /// Active locks, by path; no path twice.
    pub active_locks: Vec<(String, (u128, LockStrategy))>,
}

/// No path twice in an association list.
pub open spec fn paths_unique<V>(m: Seq<(String, V)>) -> bool {
    forall|i: int, j: int| 0 <= i < j < m.len() ==> (#[trigger] m[i]).0@ != (#[trigger] m[j]).0@
}

/// An association list by path, seen as a map.
pub open spec fn path_map<V>(m: Seq<(String, V)>) -> Map<Seq<char>, V>
    decreases m.len(),
{
    if m.len() == 0 {
        Map::empty()
    } else {
        path_map(m.drop_last()).insert(m.last().0@, m.last().1)
    }
}

/// The total number of requests in a pending-request list.
pub open spec fn total_requests(m: Seq<(String, Vec<LockRequest>)>) -> nat
    decreases m.len(),
{
    if m.len() == 0 {
        0
    } else {
        total_requests(m.drop_last()) + m.last().1@.len()
    }
}

/// Position of `path` in an association list.
fn find_path<V>(m: &Vec<(String, V)>, path: &str) -> (r: Option<usize>)
    ensures
        match r {
            Some(i) => i < m@.len() && m@[i as int].0@ == path@,
            None => forall|i: int| 0 <= i < m@.len() ==> (#[trigger] m@[i]).0@ != path@,
        },
{
    let p = path.to_owned();
    let mut i: usize = 0;
    while i < m.len()
        invariant
            i <= m@.len(),
            p@ == path@,
            forall|k: int| 0 <= k < i ==> (#[trigger] m@[k]).0@ != path@,
        decreases m@.len() - i,
    {
        if m[i].0 == p {
            return Some(i);
        }
        i += 1;
    }
    None
}

proof fn lemma_path_map_remove<V>(m: Seq<(String, V)>, i: int)
    requires
        paths_unique(m),
        0 <= i < m.len(),
    ensures
        path_map(m.remove(i)) == path_map(m).remove(m[i].0@),
        paths_unique(m.remove(i)),
    decreases m.len(),
{
    let r = m.remove(i);
    if i == m.len() - 1 {
        assert(r =~= m.drop_last());
        lemma_path_map_absent(m.drop_last(), m[i].0@);
        assert(path_map(r) =~= path_map(m).remove(m[i].0@));
    } else {
        let d = m.drop_last();
        assert(paths_unique(d)) by {
            assert forall|a: int, b: int| 0 <= a < b < d.len() implies (#[trigger] d[a]).0@ != (#[trigger] d[b]).0@ by {
                assert(d[a] == m[a] && d[b] == m[b]);
            }
        }
        lemma_path_map_remove(d, i);
        assert(r.drop_last() =~= d.remove(i));
        assert(r.last() == m.last());
        assert(m.last().0@ != m[i].0@);
        assert(path_map(r) =~= path_map(m).remove(m[i].0@));
    }
    assert(paths_unique(r)) by {
        assert forall|a: int, b: int| 0 <= a < b < r.len() implies (#[trigger] r[a]).0@ != (#[trigger] r[b]).0@ by {
            let a2 = if a < i { a } else { a + 1 };
            let b2 = if b < i { b } else { b + 1 };
            assert(r[a] == m[a2] && r[b] == m[b2]);
        }
    }
}

proof fn lemma_path_map_absent<V>(m: Seq<(String, V)>, k: Seq<char>)
    requires
        forall|i: int| 0 <= i < m.len() ==> (#[trigger] m[i]).0@ != k,
    ensures
        !path_map(m).contains_key(k),
    decreases m.len(),
{
    if m.len() > 0 {
        assert forall|i: int| 0 <= i < m.drop_last().len() implies (#[trigger] m.drop_last()[i]).0@ != k by {
            assert(m.drop_last()[i] == m[i]);
        }
        lemma_path_map_absent(m.drop_last(), k);
    }
}

proof fn lemma_path_map_update<V>(m: Seq<(String, V)>, i: int, v: V)
    requires
        paths_unique(m),
        0 <= i < m.len(),
    ensures
        path_map(m.update(i, (m[i].0, v))) == path_map(m).insert(m[i].0@, v),
        paths_unique(m.update(i, (m[i].0, v))),
    decreases m.len(),
{
    let r = m.update(i, (m[i].0, v));
    if i == m.len() - 1 {
        assert(r.drop_last() =~= m.drop_last());
        assert(path_map(r) =~= path_map(m).insert(m[i].0@, v));
    } else {
        let d = m.drop_last();
        assert(paths_unique(d)) by {
            assert forall|a: int, b: int| 0 <= a < b < d.len() implies (#[trigger] d[a]).0@ != (#[trigger] d[b]).0@ by {
                assert(d[a] == m[a] && d[b] == m[b]);
            }
        }
        lemma_path_map_update(d, i, v);
        assert(r.drop_last() =~= d.update(i, (d[i].0, v)));
        assert(m.last().0@ != m[i].0@);
        assert(path_map(r) =~= path_map(m).insert(m[i].0@, v));
    }
    assert(paths_unique(r)) by {
        assert forall|a: int, b: int| 0 <= a < b < r.len() implies (#[trigger] r[a]).0@ != (#[trigger] r[b]).0@ by {
            assert(r[a].0 == m[a].0 && r[b].0 == m[b].0);
        }
    }
}

impl DeadlockDetector {
    /// The detector's invariant: no path twice in either list.
    pub open spec fn wf(&self) -> bool {
        &&& paths_unique(self.pending_requests@)
        &&& paths_unique(self.active_locks@)
    }

    /// An empty detector.
    pub fn new() -> (r: DeadlockDetector)
        ensures
            r.wf(),
            r.wait_graph@ == Map::<u128, Vec<u128>>::empty(),
            path_map(r.pending_requests@) == Map::<Seq<char>, Vec<LockRequest>>::empty(),
            path_map(r.active_locks@) == Map::<Seq<char>, (u128, LockStrategy)>::empty(),
    {
        DeadlockDetector { wait_graph: HashMap::new(), pending_requests: Vec::new(), active_locks: Vec::new() }
    }

    /// Registers that `requester_id` waits for a lock held by `holder_id`.
    pub fn register_wait(&mut self, requester_id: u128, holder_id: u128) -> (r: Result<(), SentinelError>)
        ensures
            r is Ok,
            graph_seqs(final(self).wait_graph@) == graph_after_wait(graph_seqs(old(self).wait_graph@), requester_id, holder_id),
            final(self).pending_requests@ == old(self).pending_requests@,
            final(self).active_locks@ == old(self).active_locks@,
    {
        let ghost g0 = self.wait_graph@;
        match self.wait_graph.remove(&holder_id) {
            Some(mut waiters) => {
                waiters.push(requester_id);
                self.wait_graph.insert(holder_id, waiters);
            },
            None => {
                let mut waiters: Vec<u128> = Vec::new();
                waiters.push(requester_id);
                self.wait_graph.insert(holder_id, waiters);
                assert(waiters@ =~= seq![requester_id]);
            },
        }
        assert(graph_seqs(self.wait_graph@) =~= graph_after_wait(graph_seqs(g0), requester_id, holder_id));
        Ok(())
    }

    /// Removes the wait of `requester_id` for `holder_id`.
    pub fn unregister_wait(&mut self, requester_id: u128, holder_id: u128) -> (r: Result<(), SentinelError>)
        ensures
            r is Ok,
            graph_seqs(final(self).wait_graph@) == graph_after_unwait(graph_seqs(old(self).wait_graph@), requester_id, holder_id),
            final(self).pending_requests@ == old(self).pending_requests@,
            final(self).active_locks@ == old(self).active_locks@,
    {
        let ghost g0 = self.wait_graph@;
        match self.wait_graph.remove(&holder_id) {
            Some(waiters) => {
                let mut kept: Vec<u128> = Vec::new();
                let mut i: usize = 0;
                while i < waiters.len()
                    invariant
                        i <= waiters@.len(),
                        kept@ == without(waiters@.take(i as int), requester_id),
                    decreases waiters@.len() - i,
                {
                    assert(waiters@.take(i + 1).drop_last() =~= waiters@.take(i as int));
                    if waiters[i] != requester_id {
                        kept.push(waiters[i]);
                    }
                    i += 1;
                }
                assert(waiters@.take(i as int) =~= waiters@);
                if kept.len() > 0 {
                    self.wait_graph.insert(holder_id, kept);
                }
                assert(graph_seqs(self.wait_graph@) =~= graph_after_unwait(graph_seqs(g0), requester_id, holder_id));
            },
            None => {
                assert(graph_seqs(self.wait_graph@) =~= graph_after_unwait(graph_seqs(g0), requester_id, holder_id));
            },
        }
        Ok(())
    }

    /// Withdraws every wait of `requester_id`: afterwards it waits for no holder,
    /// and every other wait is as it was.
    pub fn withdraw_waits(&mut self, requester_id: u128)
        requires
            old(self).wf(),
        ensures
            final(self).wf(),
            forall|h: u128| !#[trigger] waits_for(graph_seqs(final(self).wait_graph@), h, requester_id),
            forall|h: u128, w: u128|
                w != requester_id ==> (#[trigger] waits_for(graph_seqs(final(self).wait_graph@), h, w) <==> waits_for(
                    graph_seqs(old(self).wait_graph@),
                    h,
                    w,
                )),
            final(self).pending_requests@ == old(self).pending_requests@,
            final(self).active_locks@ == old(self).active_locks@,
    {
        let ghost g0 = graph_seqs(self.wait_graph@);
        assert(g0.dom() =~= self.wait_graph@.dom());
        let ghost keys = vstd::std_specs::hash::spec_keys_iter(&self.wait_graph).remaining();
        let mut holders: Vec<u128> = Vec::new();
        for k in it: self.wait_graph.keys()
            invariant
                it.seq() == keys,
                keys.unref().to_set() == g0.dom(),
                holders@.len() == it.index(),
                forall|j: int| 0 <= j < holders@.len() ==> holders@[j] == *keys[j],
        {
            holders.push(*k);
        }
        assert forall|h: u128| g0.contains_key(h) implies holders@.contains(h) by {
            assert(keys.unref().to_set().contains(h));
            let j = choose|j: int| 0 <= j < keys.unref().len() && keys.unref()[j] == h;
            assert(holders@[j] == h);
        }
        let mut i: usize = 0;
        while i < holders.len()
            invariant
                i <= holders@.len(),
                self.wf(),
                forall|h: u128| g0.contains_key(h) ==> holders@.contains(h),
                forall|h: u128, w: u128|
                    w != requester_id ==> (#[trigger] waits_for(graph_seqs(self.wait_graph@), h, w) <==> waits_for(
                        g0,
                        h,
                        w,
                    )),
                forall|h: u128| #[trigger] waits_for(graph_seqs(self.wait_graph@), h, requester_id) ==> g0.contains_key(h),
                forall|j: int| 0 <= j < i ==> !waits_for(graph_seqs(self.wait_graph@), #[trigger] holders@[j], requester_id),
                self.pending_requests@ == old(self).pending_requests@,
                self.active_locks@ == old(self).active_locks@,
            decreases holders@.len() - i,
        {
            let ghost before = graph_seqs(self.wait_graph@);
            let holder = holders[i];
            let _ = self.unregister_wait(requester_id, holder);
            proof {
                let after = graph_seqs(self.wait_graph@);
                lemma_unwait_removes_wait(before, requester_id, holder);
                assert forall|h: u128, w: u128| w != requester_id implies (#[trigger] waits_for(after, h, w) <==> waits_for(
                    g0,
                    h,
                    w,
                )) by {
                    lemma_unwait_keeps_others(before, requester_id, holder, h, w);
                }
                assert forall|h: u128| #[trigger] waits_for(after, h, requester_id) implies g0.contains_key(h) by {
                    if h != holder {
                        lemma_unwait_keeps_others(before, requester_id, holder, h, requester_id);
                    }
                }
                assert forall|j: int| 0 <= j < i + 1 implies !waits_for(after, #[trigger] holders@[j], requester_id) by {
                    if holders@[j] != holder {
                        lemma_unwait_keeps_others(before, requester_id, holder, holders@[j], requester_id);
                    }
                }
            }
            i += 1;
        }
        proof {
            assert forall|h: u128| !#[trigger] waits_for(graph_seqs(self.wait_graph@), h, requester_id) by {
                if waits_for(graph_seqs(self.wait_graph@), h, requester_id) {
                    let j = choose|j: int| 0 <= j < holders@.len() && holders@[j] == h;
                }
            }
        }
    }

    /// Records an active lock on `path`.
    pub fn record_lock_acquired(&mut self, path: &str, holder_id: u128, strategy: LockStrategy)
        requires
            old(self).wf(),
        ensures
            final(self).wf(),
            path_map(final(self).active_locks@) == path_map(old(self).active_locks@).insert(path@, (holder_id, strategy)),
            final(self).wait_graph@ == old(self).wait_graph@,
            final(self).pending_requests@ == old(self).pending_requests@,
    {
        match find_path(&self.active_locks, path) {
            Some(i) => {
                let ghost m0 = self.active_locks@;
                let (key, _) = self.active_locks.remove(i);
                self.active_locks.insert(i, (key, (holder_id, strategy)));
                proof {
                    assert(self.active_locks@ =~= m0.update(i as int, (m0[i as int].0, (holder_id, strategy))));
                    lemma_path_map_update(m0, i as int, (holder_id, strategy));
                }
            },
            None => {
                let ghost m0 = self.active_locks@;
                self.active_locks.push((path.to_owned(), (holder_id, strategy)));
                proof {
                    assert(self.active_locks@.drop_last() =~= m0);
                    assert(paths_unique(self.active_locks@)) by {
                        let m = self.active_locks@;
                        assert forall|a: int, b: int| 0 <= a < b < m.len() implies (#[trigger] m[a]).0@ != (#[trigger] m[b]).0@ by {
                            if b == m.len() - 1 {
                                assert(m[a] == m0[a]);
                            } else {
                                assert(m[a] == m0[a] && m[b] == m0[b]);
                            }
                        }
                    }
                }
            },
        }
    }

    /// Records that the lock on `path` was released.
    pub fn record_lock_released(&mut self, path: &str)
        requires
            old(self).wf(),
        ensures
            final(self).wf(),
            path_map(final(self).active_locks@) == path_map(old(self).active_locks@).remove(path@),
            final(self).wait_graph@ == old(self).wait_graph@,
            final(self).pending_requests@ == old(self).pending_requests@,
    {
        match find_path(&self.active_locks, path) {
            Some(i) => {
                let ghost m0 = self.active_locks@;
                self.active_locks.remove(i);
                proof {
                    lemma_path_map_remove(m0, i as int);
                }
            },
            None => {
                proof {
                    lemma_path_map_absent(self.active_locks@, path@);
                    assert(path_map(self.active_locks@) =~= path_map(self.active_locks@).remove(path@));
                }
            },
        }
    }

    /// Registers a pending lock request under its path.
    pub fn register_request(&mut self, request: LockRequest)
        requires
            old(self).wf(),
        ensures
            final(self).wf(),
            path_map(final(self).pending_requests@).dom() == path_map(old(self).pending_requests@).dom().insert(
                request.path@,
            ),
            path_map(final(self).pending_requests@)[request.path@]@ == (if path_map(
                old(self).pending_requests@,
            ).contains_key(request.path@) {
                path_map(old(self).pending_requests@)[request.path@]@
            } else {
                Seq::empty()
            }).push(request),
            forall|p: Seq<char>|
                p != request.path@ && #[trigger] path_map(old(self).pending_requests@).contains_key(p) ==> path_map(
                    final(self).pending_requests@,
                )[p] == path_map(old(self).pending_requests@)[p],
            final(self).wait_graph@ == old(self).wait_graph@,
            final(self).active_locks@ == old(self).active_locks@,
    {
        let ghost m0 = self.pending_requests@;
        match find_path(&self.pending_requests, request.path.as_str()) {
            Some(i) => {
                let (key, mut list) = self.pending_requests.remove(i);
                list.push(request);
                proof {
                    lemma_path_map_update(m0, i as int, list);
                    assert(path_map(m0).contains_key(m0[i as int].0@)) by {
                        lemma_path_map_has(m0, i as int);
                    }
                    lemma_path_map_index(m0, i as int);
                }
                self.pending_requests.insert(i, (key, list));
                assert(self.pending_requests@ =~= m0.update(i as int, (m0[i as int].0, list)));
            },
            None => {
                let mut list: Vec<LockRequest> = Vec::new();
                let path = request.path.clone();
                list.push(request);
                self.pending_requests.push((path, list));
                proof {
                    lemma_path_map_absent(m0, request.path@);
                    assert(self.pending_requests@.drop_last() =~= m0);
                    assert(list@ =~= Seq::<LockRequest>::empty().push(request));
                    assert(paths_unique(self.pending_requests@)) by {
                        let m = self.pending_requests@;
                        assert forall|a: int, b: int| 0 <= a < b < m.len() implies (#[trigger] m[a]).0@ != (#[trigger] m[b]).0@ by {
                            if b == m.len() - 1 {
                                assert(m[a] == m0[a]);
                            } else {
                                assert(m[a] == m0[a] && m[b] == m0[b]);
                            }
                        }
                    }
                }
            },
        }
    }

    /// Removes the pending requests of `requester_id` on `path`; a path left with
    /// no requests leaves the list.
    pub fn unregister_request(&mut self, path: &str, requester_id: u128)
        requires
            old(self).wf(),
        ensures
            final(self).wf(),
            !path_map(old(self).pending_requests@).contains_key(path@) ==> path_map(final(self).pending_requests@)
                == path_map(old(self).pending_requests@),
            path_map(old(self).pending_requests@).contains_key(path@) ==> {
                let before = path_map(old(self).pending_requests@)[path@]@;
                let kept = before.filter(not_of(requester_id));
                if kept.len() == 0 {
                    path_map(final(self).pending_requests@) == path_map(old(self).pending_requests@).remove(path@)
                } else {
                    &&& path_map(final(self).pending_requests@).dom() == path_map(old(self).pending_requests@).dom()
                    &&& path_map(final(self).pending_requests@)[path@]@ == kept
                    &&& forall|p: Seq<char>|
                        p != path@ && #[trigger] path_map(old(self).pending_requests@).contains_key(p) ==> path_map(
                            final(self).pending_requests@,
                        )[p] == path_map(old(self).pending_requests@)[p]
                }
            },
            final(self).wait_graph@ == old(self).wait_graph@,
            final(self).active_locks@ == old(self).active_locks@,
    {
        let ghost m0 = self.pending_requests@;
        match find_path(&self.pending_requests, path) {
            Some(i) => {
                proof {
                    lemma_path_map_has(m0, i as int);
                    lemma_path_map_index(m0, i as int);
                }
                let (key, mut list) = self.pending_requests.remove(i);
                let ghost before = list@;
                let n = list.len();
                let mut kept: Vec<LockRequest> = Vec::new();
                let mut j: usize = 0;
                while list.len() > 0
                    invariant
                        n == before.len(),
                        j <= before.len(),
                        list@ == before.skip(j as int),
                        kept@ == before.take(j as int).filter(not_of(requester_id)),
                    decreases list@.len(),
                {
                    let item = list.remove(0);
                    proof {
                        let t = before.take(j + 1);
                        assert(t.drop_last() =~= before.take(j as int));
                        reveal(Seq::filter);
                        assert(item == before[j as int]);
                        assert(t.last() == item);
                    }
                    if item.requester_id != requester_id {
                        kept.push(item);
                    }
                    j += 1;
                    assert(list@ =~= before.skip(j as int));
                }
                assert(before.take(j as int) =~= before);
                if kept.len() == 0 {
                    proof {
                        lemma_path_map_remove(m0, i as int);
                    }
                } else {
                    proof {
                        lemma_path_map_update(m0, i as int, kept);
                        assert(m0.remove(i as int).insert(i as int, (m0[i as int].0, kept)) =~= m0.update(
                            i as int,
                            (m0[i as int].0, kept),
                        ));
                    }
                    self.pending_requests.insert(i, (key, kept));
                }
            },
            None => {
                proof {
                    lemma_path_map_absent(m0, path@);
                }
            },
        }
    }

    /// Whether a deadlock involves `requester_id`: a cycle of waits through it.
    pub fn detect_deadlock(&self, requester_id: u128) -> (r: bool)
        ensures
            r == on_cycle(graph_seqs(self.wait_graph@), requester_id),
    {
        let ghost g = graph_seqs(self.wait_graph@);
        let ghost dom = g.dom();
        assert(dom =~= self.wait_graph@.dom());
        let mut visited: HashSet<u128> = HashSet::new();
        visited.insert(requester_id);
        let mut stack: Vec<u128> = Vec::new();
        stack.push(requester_id);
        assert(stack@[0] == requester_id);
        assert(visited@ =~= set![requester_id]);
        loop
            invariant
                g == graph_seqs(self.wait_graph@),
                dom == g.dom(),
                dom == self.wait_graph@.dom(),
                dom.finite(),
                visited@.contains(requester_id),
                forall|v: u128| #[trigger] visited@.contains(v) ==> v == requester_id || reaches(g, requester_id, v),
                forall|i: int|
                    0 <= i < stack@.len() ==> visited@.contains(#[trigger] stack@[i]) && (stack@[i] == requester_id
                        || dom.contains(stack@[i])),
                forall|v: u128, w: u128|
                    visited@.contains(v) && !stack@.contains(v) && #[trigger] waits_for(g, v, w) ==> w
                        != requester_id && (visited@.contains(w) || !dom.contains(w)),
            decreases dom.difference(visited@).len() + stack@.len(),
        {
            let ghost stack_before = stack@;
            let current = match stack.pop() {
                Some(c) => c,
                None => {
                    proof {
                        lemma_closed_set_no_return(g, visited@, requester_id);
                    }
                    return false;
                },
            };
            let ghost v_before = visited@;
            let ghost stack_rest = stack@;
            assert(stack_before =~= stack_rest.push(current));
            match self.wait_graph.get(&current) {
                Some(waiters) => {
                    let mut j: usize = 0;
                    proof {
                        assert forall|v: u128, w: u128|
                            visited@.contains(v) && !stack@.contains(v) && v != current && #[trigger] waits_for(g, v, w)
                                implies w != requester_id && (visited@.contains(w) || !dom.contains(w)) by {
                            assert(!stack_before.contains(v));
                        }
                        assert(stack@.subrange(0, stack_rest.len() as int) =~= stack_rest);
                    }
                    while j < waiters.len()
                        invariant
                            g == graph_seqs(self.wait_graph@),
                            dom == g.dom(),
                            dom == self.wait_graph@.dom(),
                            dom.finite(),
                            g.contains_key(current),
                            waiters@ == g[current],
                            j <= waiters@.len(),
                            visited@.contains(current),
                            v_before.subset_of(visited@),
                            current == requester_id || reaches(g, requester_id, current),
                            visited@.contains(requester_id),
                            forall|v: u128| #[trigger] visited@.contains(v) ==> v == requester_id || reaches(g, requester_id, v),
                            forall|i: int|
                                0 <= i < stack@.len() ==> visited@.contains(#[trigger] stack@[i]) && (stack@[i]
                                    == requester_id || dom.contains(stack@[i])),
                            stack_rest.len() <= stack@.len(),
                            stack@.subrange(0, stack_rest.len() as int) == stack_rest,
                            forall|i: int|
                                stack_rest.len() <= i < stack@.len() ==> !v_before.contains(#[trigger] stack@[i]),
                            stack@.len() - stack_rest.len() == dom.difference(v_before).len() - dom.difference(visited@).len(),
                            forall|v: u128, w: u128|
                                visited@.contains(v) && !stack@.contains(v) && v != current && #[trigger] waits_for(g, v, w)
                                    ==> w != requester_id && (visited@.contains(w) || !dom.contains(w)),
                            forall|k: int|
                                0 <= k < j ==> #[trigger] waiters@[k] != requester_id && (visited@.contains(waiters@[k])
                                    || !dom.contains(waiters@[k])),
                        decreases waiters@.len() - j,
                    {
                        let w = waiters[j];
                        if w == requester_id {
                            proof {
                                assert(waits_for(g, current, requester_id));
                                if current == requester_id {
                                    lemma_edge_reaches(g, current, requester_id);
                                } else {
                                    lemma_reaches_extend(g, requester_id, current, requester_id);
                                }
                            }
                            return true;
                        }
                        if !visited.contains(&w) && self.wait_graph.contains_key(&w) {
                            let ghost v_prev = visited@;
                            let ghost s_prev = stack@;
                            proof {
                                assert(waits_for(g, current, w));
                                if current == requester_id {
                                    lemma_edge_reaches(g, current, w);
                                } else {
                                    lemma_reaches_extend(g, requester_id, current, w);
                                }
                            }
                            visited.insert(w);
                            stack.push(w);
                            proof {
                                assert(stack@[stack@.len() - 1] == w);
                                assert forall|v: u128| #[trigger] s_prev.contains(v) implies stack@.contains(v) by {
                                    let k = choose|k: int| 0 <= k < s_prev.len() && s_prev[k] == v;
                                    assert(stack@[k] == v);
                                }
                                assert(dom.difference(visited@) =~= dom.difference(v_prev).remove(w));
                                assert(stack@.subrange(0, stack_rest.len() as int) =~= stack_rest);
                            }
                        }
                        j += 1;
                    }
                    proof {
                        assert forall|v: u128, w: u128|
                            visited@.contains(v) && !stack@.contains(v) && #[trigger] waits_for(g, v, w) implies w
                                != requester_id && (visited@.contains(w) || !dom.contains(w)) by {
                            if v == current {
                                let k = choose|k: int| 0 <= k < waiters@.len() && waiters@[k] == w;
                                assert(waiters@[k] == w);
                            }
                        }
                        lemma_no_more_unvisited(dom, v_before, visited@);
                    }
                },
                None => {
                    proof {
                        assert(!dom.contains(current));
                        assert forall|v: u128, w: u128|
                            visited@.contains(v) && !stack@.contains(v) && #[trigger] waits_for(g, v, w) implies w
                                != requester_id && (visited@.contains(w) || !dom.contains(w)) by {
                            if v != current {
                                assert(!stack_before.contains(v));
                            }
                        }
                    }
                },
            }
        }
    }
}

/// Depth-first search from `node` for an edge back into the current path.
/// On success the last entry of `path` lies on a cycle. On failure `path` and
/// `current_path` are as they were, and every node the search finished keeps
/// the colouring invariant.
fn has_cycle(
    graph: &HashMap<u128, Vec<u128>>,
    node: u128,
    path: &mut Vec<u128>,
    current_path: &mut HashSet<u128>,
    visited: &mut HashSet<u128>,
) -> (found: bool)
    requires
        !old(visited)@.contains(node),
        old(current_path)@ == old(path)@.to_set(),
        old(current_path)@.subset_of(old(visited)@),
        is_walk(graph_seqs(graph@), old(path)@.push(node)),
    ensures
        old(visited)@.insert(node).subset_of(final(visited)@),
        found ==> final(path)@.len() > 0 && on_cycle(graph_seqs(graph@), final(path)@.last()) && !old(visited)@.contains(
            final(path)@.last(),
        ) && final(visited)@.contains(final(path)@.last()),
        !found ==> final(path)@ == old(path)@ && final(current_path)@ == old(current_path)@,
        !found && black_invariant(graph_seqs(graph@), old(visited)@, old(current_path)@) ==> black_invariant(
            graph_seqs(graph@),
            final(visited)@,
            old(current_path)@,
        ),
    decreases 2 * graph@.dom().difference(visited@).len() + (if graph@.dom().contains(node) {
        0int
    } else {
        1int
    }),
{
    let ghost g = graph_seqs(graph@);
    let ghost dom = g.dom();
    assert(dom =~= graph@.dom());
    let ghost v0 = visited@;
    let ghost c0 = current_path@;
    let ghost p0 = path@;
    visited.insert(node);
    current_path.insert(node);
    path.push(node);
    proof {
        assert(path@ == p0.push(node));
        assert(current_path@ =~= path@.to_set()) by {
            assert forall|x: u128| current_path@.contains(x) implies path@.to_set().contains(x) by {
                if x == node {
                    assert(path@[path@.len() - 1] == node);
                } else {
                    let k = choose|k: int| 0 <= k < p0.len() && p0[k] == x;
                    assert(path@[k] == x);
                }
            }
            assert forall|x: u128| path@.to_set().contains(x) implies current_path@.contains(x) by {
                let k = choose|k: int| 0 <= k < path@.len() && path@[k] == x;
                if k < p0.len() {
                    assert(p0[k] == x);
                    assert(p0.to_set().contains(x));
                }
            }
        }
        if black_invariant(g, v0, c0) {
            assert(black_invariant(g, visited@, current_path@)) by {
                assert forall|b: u128, w: u128|
                    visited@.contains(b) && !current_path@.contains(b) && #[trigger] waits_for(g, b, w) implies visited@.contains(w)
                    && !current_path@.contains(w) by {
                    assert(v0.contains(b) && !c0.contains(b));
                }
                assert forall|b: u128| visited@.contains(b) && !current_path@.contains(b) implies !#[trigger] on_cycle(g, b) by {
                    assert(v0.contains(b) && !c0.contains(b));
                }
            }
        }
    }
    match graph.get(&node) {
        Some(neighbors) => {
            let mut j: usize = 0;
            while j < neighbors.len()
                invariant
                    g == graph_seqs(graph@),
                    dom == g.dom(),
                    dom == graph@.dom(),
                    dom.finite(),
                    g.contains_key(node),
                    neighbors@ == g[node],
                    j <= neighbors@.len(),
                    v0 == old(visited)@,
                    c0 == old(current_path)@,
                    p0 == old(path)@,
                    !v0.contains(node),
                    c0 == p0.to_set(),
                    c0.subset_of(v0),
                    is_walk(g, p0.push(node)),
                    path@ == p0.push(node),
                    current_path@ == c0.insert(node),
                    current_path@ == path@.to_set(),
                    current_path@.subset_of(visited@),
                    v0.insert(node).subset_of(visited@),
                    black_invariant(g, v0, c0) ==> black_invariant(g, visited@, current_path@),
                    forall|k: int|
                        0 <= k < j ==> visited@.contains(#[trigger] neighbors@[k]) && !current_path@.contains(
                            neighbors@[k],
                        ),
                decreases neighbors@.len() - j,
            {
                let nb = neighbors[j];
                proof {
                    assert(waits_for(g, node, nb));
                }
                if !visited.contains(&nb) {
                    proof {
                        lemma_fewer_unvisited(dom, v0, visited@, node);
                        assert(is_walk(g, path@.push(nb))) by {
                            let q = path@.push(nb);
                            assert forall|i: int| 0 <= i < q.len() - 1 implies #[trigger] walk_step(g, q, i) by {
                                if i < q.len() - 2 {
                                    assert(walk_step(g, path@, i));
                                }
                            }
                        }
                    }
                    let ghost v_call = visited@;
                    let found = has_cycle(graph, nb, path, current_path, visited);
                    proof {
                        assert(v0.insert(node).subset_of(visited@)) by {
                            assert(v0.insert(node).subset_of(v_call));
                            assert(v_call.subset_of(visited@));
                        }
                    }
                    if found {
                        return true;
                    }
                } else if current_path.contains(&nb) {
                    proof {
                        let pp = p0.push(node);
                        assert(pp.to_set().contains(nb));
                        let k = choose|k: int| 0 <= k < pp.len() && pp[k] == nb;
                        let q = seq![node] + pp.subrange(k, pp.len() as int);
                        assert(q[q.len() - 1] == node);
                        assert(is_walk(g, q)) by {
                            assert forall|i: int| 0 <= i < q.len() - 1 implies #[trigger] walk_step(g, q, i) by {
                                if i > 0 {
                                    assert(q[i] == pp[k + i - 1]);
                                    assert(q[i + 1] == pp[k + i]);
                                    assert(walk_step(g, pp, k + i - 1));
                                }
                            }
                        }
                        assert(path@.last() == node);
                    }
                    return true;
                }
                proof {
                    assert(visited@.contains(nb) && !current_path@.contains(nb));
                }
                j += 1;
            }
        },
        None => {},
    }
    let ghost v_end = visited@;
    let ghost c_end = current_path@;
    current_path.remove(&node);
    path.pop();
    proof {
        assert(path@ =~= p0);
        assert(!c0.contains(node));
        assert(current_path@ =~= c0);
        if black_invariant(g, v0, c0) {
            assert(forall|w: u128| #[trigger] waits_for(g, node, w) ==> visited@.contains(w) && !c_end.contains(w)) by {
                assert forall|w: u128| #[trigger] waits_for(g, node, w) implies visited@.contains(w) && !c_end.contains(w) by {
                    if g.contains_key(node) {
                        let k = choose|k: int| 0 <= k < g[node].len() && g[node][k] == w;
                        assert(g[node][k] == w);
                    }
                }
            }
            assert(black_invariant(g, visited@, c_end));
            lemma_finished_node_acyclic(g, visited@, c_end, node);
            assert(black_invariant(g, visited@, c0)) by {
                assert forall|b: u128, w: u128|
                    visited@.contains(b) && !c0.contains(b) && #[trigger] waits_for(g, b, w) implies visited@.contains(w)
                    && !c0.contains(w) by {
                    if b != node {
                        assert(!c_end.contains(b));
                    }
                }
                assert forall|b: u128| visited@.contains(b) && !c0.contains(b) implies !#[trigger] on_cycle(g, b) by {
                    if b != node {
                        assert(!c_end.contains(b));
                    }
                }
            }
        }
    }
    false
}

impl DeadlockDetector {
    /// Finds deadlocked transactions: for each search that meets a cycle, the
    /// transaction it reached last (the youngest in the cycle) is chosen to abort.
    pub fn find_deadlocked_transactions(&self) -> (r: Vec<u128>)
        ensures
            forall|i: int| 0 <= i < r@.len() ==> on_cycle(graph_seqs(self.wait_graph@), #[trigger] r@[i]),
            r@.no_duplicates(),
            r@.len() == 0 <==> !has_deadlock(graph_seqs(self.wait_graph@)),
    {
        let ghost g = graph_seqs(self.wait_graph@);
        assert(g.dom() =~= self.wait_graph@.dom());
        let mut deadlocked: Vec<u128> = Vec::new();
        let mut visited: HashSet<u128> = HashSet::new();
        assert(black_invariant(g, visited@, Set::empty()));
        let ghost keys = vstd::std_specs::hash::spec_keys_iter(&self.wait_graph).remaining();
        let ghost mut done: int = 0;
        for start in it: self.wait_graph.keys()
            invariant
                g == graph_seqs(self.wait_graph@),
                g.dom() == self.wait_graph@.dom(),
                it.seq() == keys,
                done == it.index(),
                keys.unref().to_set() == g.dom(),
                forall|i: int| 0 <= i < deadlocked@.len() ==> on_cycle(g, #[trigger] deadlocked@[i]),
                forall|i: int| 0 <= i < deadlocked@.len() ==> visited@.contains(#[trigger] deadlocked@[i]),
                deadlocked@.no_duplicates(),
                deadlocked@.len() == 0 ==> black_invariant(g, visited@, Set::empty()),
                deadlocked@.len() == 0 ==> forall|k: int|
                    0 <= k < done ==> visited@.contains(*#[trigger] keys[k]),
        {
            proof {
                done = done + 1;
            }
            if !visited.contains(start) {
            let mut path: Vec<u128> = Vec::new();
            let mut current: HashSet<u128> = HashSet::new();
            proof {
                assert(current@ =~= path@.to_set());
                assert(is_walk(g, path@.push(*start)));
            }
            let ghost v_before = visited@;
            if has_cycle(&self.wait_graph, *start, &mut path, &mut current, &mut visited) {
                let victim = path[path.len() - 1];
                proof {
                    assert forall|i: int| 0 <= i < deadlocked@.len() implies #[trigger] deadlocked@[i] != victim by {
                        assert(v_before.contains(deadlocked@[i]));
                    }
                }
                deadlocked.push(victim);
                proof {
                    assert(deadlocked@[deadlocked@.len() - 1] == victim);
                }
            } else {
                proof {
                    assert(current@ =~= Set::<u128>::empty());
                }
            }
            }
        }
        proof {
            if deadlocked@.len() == 0 {
                assert forall|x: u128| !#[trigger] on_cycle(g, x) by {
                    if on_cycle(g, x) {
                        let p = choose|p: Seq<u128>| p.len() >= 2 && p[0] == x && p[p.len() - 1] == x && #[trigger] is_walk(g, p);
                        assert(walk_step(g, p, 0));
                        assert(g.dom().contains(x));
                        assert(keys.unref().to_set().contains(x));
                        let k = choose|k: int| 0 <= k < keys.unref().len() && keys.unref()[k] == x;
                        assert(*keys[k] == x);
                    }
                }
            } else {
                assert(on_cycle(g, deadlocked@[0]));
            }
        }
        deadlocked
    }
}

proof fn lemma_path_map_has<V>(m: Seq<(String, V)>, i: int)
    requires
        0 <= i < m.len(),
    ensures
        path_map(m).contains_key(m[i].0@),
    decreases m.len(),
{
    if i < m.len() - 1 {
        assert(m.drop_last()[i] == m[i]);
        lemma_path_map_has(m.drop_last(), i);
    }
}

proof fn lemma_path_map_index<V>(m: Seq<(String, V)>, i: int)
    requires
        paths_unique(m),
        0 <= i < m.len(),
    ensures
        path_map(m)[m[i].0@] == m[i].1,
    decreases m.len(),
{
    if i < m.len() - 1 {
        let d = m.drop_last();
        assert(paths_unique(d)) by {
            assert forall|a: int, b: int| 0 <= a < b < d.len() implies (#[trigger] d[a]).0@ != (#[trigger] d[b]).0@ by {
                assert(d[a] == m[a] && d[b] == m[b]);
            }
        }
        assert(d[i] == m[i]);
        lemma_path_map_index(d, i);
        assert(m.last().0@ != m[i].0@);
    }
}

} // verus!
