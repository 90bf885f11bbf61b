//! The lock table of the file lock manager, and the decisions of lock acquisition.
//!
//! The filesystem locks themselves, the waiting and the sleeping are the work of
//! the caller; this module keeps who holds which path, checks a new wait for a
//! deadlock before it starts, and decides the retries.
use dashmap::DashMap;
use vstd::prelude::*;

use crate::deadlock::{graph_after_unwait, graph_after_wait, graph_seqs, on_cycle, path_map, total_requests, waits_for, DeadlockDetector, LockStrategy};
use crate::error::SentinelError;

verus! {

/// The holders of a path's lock with their strategies, in the order they
/// acquired it; empty when the path is not locked.
pub type Holders = Vec<(u128, LockStrategy)>;

#[verifier::external_type_specification]
#[verifier::external_body]
#[verifier::reject_recursive_types(K)]
#[verifier::reject_recursive_types(V)]
#[verifier::reject_recursive_types(S)]
pub struct ExDashMap<K, V, S>(DashMap<K, V, S>);

/// A lock table: path to the holders of its lock.
pub type LockTable = DashMap<String, Holders>;

/// The entries of a lock table: path to the holders of its lock.
pub uninterp spec fn lock_table_contents(t: LockTable) -> Map<Seq<char>, Seq<(u128, LockStrategy)>>;

/// `DashMap::new`: a table with no entries.
#[verifier::external_body]
fn lock_table_new() -> (table: LockTable)
    ensures
        lock_table_contents(table).dom() == Set::<Seq<char>>::empty(),
{
    DashMap::new()
}

/// `DashMap::get`: a copy of the holders stored under `path`, if there is an
/// entry for it.
#[verifier::external_body]
fn lock_table_get(t: &LockTable, path: &str) -> (r: Option<Holders>)
    ensures
        match r {
            Some(v) => lock_table_contents(*t).contains_key(path@) && v@ == lock_table_contents(*t)[path@],
            None => !lock_table_contents(*t).contains_key(path@),
        },
{
    t.get(path).map(|entry| entry.value().clone())
}

/// `DashMap::insert`: the entry for `path` holds `holders` afterwards; no other entry changes.
#[verifier::external_body]
fn lock_table_insert(t: &mut LockTable, path: &str, holders: Holders)
    ensures
        lock_table_contents(*final(t)) == lock_table_contents(*old(t)).insert(path@, holders@),
{
    t.insert(path.to_owned(), holders);
}

/// `DashMap::len`: the number of entries.
#[verifier::external_body]
fn lock_table_len(t: &LockTable) -> (r: usize)
    ensures
        r == lock_table_contents(*t).len(),
{
    t.len()
}

/// `Uuid::new_v4().as_u128()`: a fresh random ID. Nothing is stated of its value.
#[verifier::external_body]
fn new_random_id() -> (r: u128) {
    uuid::Uuid::new_v4().as_u128()
}

/// The largest duration, in nanoseconds.
pub open spec fn max_duration_nanos() -> u128 {
    18446744073709551615999999999u128
}

/// Statistics about the lock manager state.
#[derive(Debug, Clone)]
pub struct LockManagerStats {
    /// Number of paths in the lock table (locked now or before).
    pub active_locks: usize,
    /// Total number of pending lock requests across all paths.
    pub total_pending_requests: usize,
    /// Number of paths with pending requests.
    pub paths_with_pending_requests: usize,
}

/// What to do after a failed attempt to acquire a lock.
#[derive(Debug, Clone, Copy, PartialEq, Eq, Structural)]
pub enum RetryDecision {
    /// Sleep this many nanoseconds, then try again.
    Retry { delay_nanos: u128 },
    /// Return the error.
    GiveUp,
}

/// Central manager for file locks: the lock table, the deadlock detector and
/// the acquisition settings.
pub struct FileLockManager {
    /// Path to the current holder and strategy of its lock.
    pub lock_table: LockTable,
    /// Deadlock detector.
    pub deadlock_detector: DeadlockDetector,
    /// Default timeout for lock acquisitions, in nanoseconds.
    pub default_timeout_nanos: u128,
    /// Maximum retries after a deadlock is detected.
    pub max_deadlock_retries: u32,
    /// Base delay of the exponential backoff after a deadlock, in nanoseconds.
    pub deadlock_backoff_base_nanos: u128,
}

/// The holders of `path` in a table, none when the path has no entry.
pub open spec fn holders_of(t: Map<Seq<char>, Seq<(u128, LockStrategy)>>, path: Seq<char>) -> Seq<(u128, LockStrategy)> {
    if t.contains_key(path) {
        t[path]
    } else {
        Seq::empty()
    }
}

/// `requester` is among the holders.
pub open spec fn holds(hs: Seq<(u128, LockStrategy)>, requester: u128) -> bool {
    exists|i: int| 0 <= i < hs.len() && (#[trigger] hs[i]).0 == requester
}

/// The first holder other than `requester`, if any.
pub open spec fn first_other(hs: Seq<(u128, LockStrategy)>, requester: u128) -> Option<u128>
    decreases hs.len(),
{
    if hs.len() == 0 {
        None
    } else if hs[0].0 != requester {
        Some(hs[0].0)
    } else {
        first_other(hs.drop_first(), requester)
    }
}

/// The holders without `requester`, the others in their order.
pub open spec fn without_holder(hs: Seq<(u128, LockStrategy)>, requester: u128) -> Seq<(u128, LockStrategy)>
    decreases hs.len(),
{
    if hs.len() == 0 {
        hs
    } else {
        let rest = without_holder(hs.drop_last(), requester);
        if hs.last().0 != requester {
            rest.push(hs.last())
        } else {
            rest
        }
    }
}

/// The table after `requester` acquired `path` with `strategy`: it joins the
/// holders (replacing an entry it had).
pub open spec fn table_after_acquire(
    t: Map<Seq<char>, Seq<(u128, LockStrategy)>>,
    path: Seq<char>,
    requester: u128,
    strategy: LockStrategy,
) -> Map<Seq<char>, Seq<(u128, LockStrategy)>> {
    t.insert(path, without_holder(holders_of(t, path), requester).push((requester, strategy)))
}

/// The table after `requester` released `path`: it leaves the holders; a path
/// without an entry keeps having none.
pub open spec fn table_after_release(t: Map<Seq<char>, Seq<(u128, LockStrategy)>>, path: Seq<char>, requester: u128) -> Map<Seq<char>, Seq<(u128, LockStrategy)>> {
    if t.contains_key(path) {
        t.insert(path, without_holder(t[path], requester))
    } else {
        t
    }
}

/// The table after every holder of `path` was released.
pub open spec fn table_after_force_release(t: Map<Seq<char>, Seq<(u128, LockStrategy)>>, path: Seq<char>) -> Map<Seq<char>, Seq<(u128, LockStrategy)>> {
    if t.contains_key(path) {
        t.insert(path, Seq::empty())
    } else {
        t
    }
}

/// Removing a holder removes exactly its entries.
proof fn lemma_without_holder(hs: Seq<(u128, LockStrategy)>, requester: u128, e: (u128, LockStrategy))
    ensures
        without_holder(hs, requester).contains(e) <==> (hs.contains(e) && e.0 != requester),
        !holds(without_holder(hs, requester), requester),
        without_holder(hs, requester).len() <= hs.len(),
    decreases hs.len(),
{
    if hs.len() > 0 {
        let d = hs.drop_last();
        lemma_without_holder(d, requester, e);
        let r = without_holder(d, requester);
        if hs.contains(e) {
            let i = choose|i: int| 0 <= i < hs.len() && hs[i] == e;
            if i < hs.len() - 1 {
                assert(d[i] == e);
            }
        }
        if d.contains(e) {
            let i = choose|i: int| 0 <= i < d.len() && d[i] == e;
            assert(hs[i] == e);
        }
        if hs.last().0 != requester {
            let p = r.push(hs.last());
            if p.contains(e) {
                let i = choose|i: int| 0 <= i < p.len() && p[i] == e;
                if i < r.len() {
                    assert(r[i] == e);
                }
            }
            if r.contains(e) {
                let i = choose|i: int| 0 <= i < r.len() && r[i] == e;
                assert(p[i] == e);
            }
            if hs.last() == e {
                assert(p[r.len() as int] == e);
            }
            assert forall|i: int| 0 <= i < p.len() implies (#[trigger] p[i]).0 != requester by {
                if i < r.len() {
                    assert(p[i] == r[i]);
                    if r[i].0 == requester {
                        assert(holds(r, requester));
                    }
                }
            }
        }
    }
}

/// A holder that has no entry is not removed from anything.
proof fn lemma_without_absent_holder(hs: Seq<(u128, LockStrategy)>, requester: u128)
    requires
        !holds(hs, requester),
    ensures
        without_holder(hs, requester) == hs,
    decreases hs.len(),
{
    if hs.len() > 0 {
        let d = hs.drop_last();
        if holds(d, requester) {
            let i = choose|i: int| 0 <= i < d.len() && (#[trigger] d[i]).0 == requester;
            assert(hs[i] == d[i]);
        }
        lemma_without_absent_holder(d, requester);
        assert(hs[hs.len() - 1] == hs.last());
        assert(d.push(hs.last()) =~= hs);
    }
}

/// A lock that was just acquired is held by its requester with its strategy;
/// once the requester releases it, it no longer holds it, every other holder
/// still does (so a path stays locked while another shared holder lives), and
/// no other path's lock changed on the way.
pub proof fn lemma_acquire_then_release(
    t: Map<Seq<char>, Seq<(u128, LockStrategy)>>,
    path: Seq<char>,
    requester: u128,
    strategy: LockStrategy,
    other: Seq<char>,
    e: (u128, LockStrategy),
)
    ensures
        holders_of(table_after_acquire(t, path, requester, strategy), path).contains((requester, strategy)),
        !holds(holders_of(table_after_release(table_after_acquire(t, path, requester, strategy), path, requester), path), requester),
        e.0 != requester ==> (holders_of(
            table_after_release(table_after_acquire(t, path, requester, strategy), path, requester),
            path,
        ).contains(e) <==> holders_of(t, path).contains(e)),
        other != path ==> holders_of(
            table_after_release(table_after_acquire(t, path, requester, strategy), path, requester),
            other,
        ) == holders_of(t, other),
{
    let hs = without_holder(holders_of(t, path), requester);
    let a = hs.push((requester, strategy));
    assert(a[hs.len() as int] == (requester, strategy));
    lemma_without_holder(holders_of(t, path), requester, e);
    lemma_without_holder(hs, requester, e);
    lemma_without_absent_holder(hs, requester);
    assert(a.drop_last() =~= hs);
    lemma_without_holder(a, requester, e);
    assert(without_holder(a, requester) == hs);
    if hs.contains(e) {
        let i = choose|i: int| 0 <= i < hs.len() && hs[i] == e;
        assert(a[i] == e);
    }
}

/// Two shared holders: when the first releases, the path stays locked by the
/// second; when the second releases too, the path is unlocked.
pub proof fn lemma_shared_holders(t: Map<Seq<char>, Seq<(u128, LockStrategy)>>, path: Seq<char>, a: u128, b: u128)
    requires
        a != b,
        holders_of(t, path).len() == 0,
    ensures
        ({
            let both = table_after_acquire(table_after_acquire(t, path, a, LockStrategy::Shared), path, b, LockStrategy::Shared);
            let one = table_after_release(both, path, a);
            &&& holders_of(one, path) == seq![(b, LockStrategy::Shared)]
            &&& holders_of(table_after_release(one, path, b), path).len() == 0
        }),
{
    let e: Seq<(u128, LockStrategy)> = Seq::empty();
    assert(without_holder(holders_of(t, path), a) == e);
    let sa = seq![(a, LockStrategy::Shared)];
    assert(e.push((a, LockStrategy::Shared)) =~= sa);
    assert(!holds(sa, b));
    lemma_without_absent_holder(sa, b);
    let sab = seq![(a, LockStrategy::Shared), (b, LockStrategy::Shared)];
    assert(sa.push((b, LockStrategy::Shared)) =~= sab);
    assert(sab.drop_last() =~= sa);
    assert(sa.drop_last() =~= e);
    assert(without_holder(sa, a) == e);
    assert(without_holder(sab, a) == e.push((b, LockStrategy::Shared)));
    let sb = seq![(b, LockStrategy::Shared)];
    assert(e.push((b, LockStrategy::Shared)) =~= sb);
    assert(sb.drop_last() =~= e);
    assert(without_holder(sb, b) == e);
}

/// Releasing twice is releasing once.
pub proof fn lemma_release_idempotent(t: Map<Seq<char>, Seq<(u128, LockStrategy)>>, path: Seq<char>, requester: u128)
    ensures
        table_after_release(table_after_release(t, path, requester), path, requester) == table_after_release(
            t,
            path,
            requester,
        ),
{
    if t.contains_key(path) {
        let e = (requester, LockStrategy::Shared);
        lemma_without_holder(t[path], requester, e);
        lemma_without_absent_holder(without_holder(t[path], requester), requester);
        assert(t.insert(path, without_holder(t[path], requester)).insert(path, without_holder(t[path], requester))
            =~= t.insert(path, without_holder(t[path], requester)));
    }
}

/// The error of a filesystem lock that was not granted within the timeout: the
/// path and the timeout in whole milliseconds, truncated to 64 bits.
pub fn lock_timeout_error(path: &str, timeout_nanos: u128) -> (r: SentinelError)
    ensures
        r matches SentinelError::LockTimeout { path: p, timeout_ms } && p@ == path@ && timeout_ms == (timeout_nanos
            / 1_000_000) as u64,
{
    let millis = timeout_nanos / 1_000_000;
    SentinelError::LockTimeout { path: path.to_owned(), timeout_ms: millis as u64 }
}

/// The backoff delay after the failed attempt `retry` can be formed: `2^retry`
/// fits 32 bits and `base * 2^retry` nanoseconds is a valid duration.
pub open spec fn backoff_fits(base: u128, retry: u32) -> bool {
    retry < 32 && base * vstd::arithmetic::power2::pow2(retry as nat) <= max_duration_nanos()
}

impl FileLockManager {
    /// The manager's invariant.
    pub open spec fn wf(&self) -> bool {
        &&& self.deadlock_detector.wf()
        &&& self.default_timeout_nanos <= max_duration_nanos()
        &&& self.deadlock_backoff_base_nanos <= max_duration_nanos()
    }

    /// The lock table as a map.
    pub open spec fn table(&self) -> Map<Seq<char>, Seq<(u128, LockStrategy)>> {
        lock_table_contents(self.lock_table)
    }

    /// A manager with the defaults: 30 s timeout, 3 retries after a deadlock, 100 ms backoff base.
    pub fn new() -> (r: FileLockManager)
        ensures
            r.wf(),
            r.table() == Map::<Seq<char>, Seq<(u128, LockStrategy)>>::empty(),
            r.deadlock_detector.wait_graph@ == Map::<u128, Vec<u128>>::empty(),
            path_map(r.deadlock_detector.pending_requests@) == Map::<Seq<char>, Vec<crate::deadlock::LockRequest>>::empty(),
            path_map(r.deadlock_detector.active_locks@) == Map::<Seq<char>, (u128, LockStrategy)>::empty(),
            r.default_timeout_nanos == 30_000_000_000,
            r.max_deadlock_retries == 3,
            r.deadlock_backoff_base_nanos == 100_000_000,
    {
        let lock_table = lock_table_new();
        assert(lock_table_contents(lock_table) =~= Map::<Seq<char>, Seq<(u128, LockStrategy)>>::empty());
        FileLockManager {
            lock_table,
            deadlock_detector: DeadlockDetector::new(),
            default_timeout_nanos: 30_000_000_000,
            max_deadlock_retries: 3,
            deadlock_backoff_base_nanos: 100_000_000,
        }
    }

    /// A manager with the given timeout, retry count and backoff base (durations in nanoseconds).
    pub fn with_config(default_timeout_nanos: u128, max_deadlock_retries: u32, deadlock_backoff_base_nanos: u128) -> (r: FileLockManager)
        requires
            default_timeout_nanos <= max_duration_nanos(),
            deadlock_backoff_base_nanos <= max_duration_nanos(),
        ensures
            r.wf(),
            r.table() == Map::<Seq<char>, Seq<(u128, LockStrategy)>>::empty(),
            r.deadlock_detector.wait_graph@ == Map::<u128, Vec<u128>>::empty(),
            r.default_timeout_nanos == default_timeout_nanos,
            r.max_deadlock_retries == max_deadlock_retries,
            r.deadlock_backoff_base_nanos == deadlock_backoff_base_nanos,
    {
        let base = Self::new();
        FileLockManager { default_timeout_nanos, max_deadlock_retries, deadlock_backoff_base_nanos, ..base }
    }

    /// Starts an acquisition: a fresh requester ID and the timeout to use, the
    /// given one or else the default.
    pub fn new_acquisition(&self, timeout_nanos: Option<u128>) -> (r: (u128, u128))
        ensures
            r.1 == match timeout_nanos {
                Some(t) => t,
                None => self.default_timeout_nanos,
            },
    {
        let id = new_random_id();
        let timeout = match timeout_nanos {
            Some(t) => t,
            None => self.default_timeout_nanos,
        };
        (id, timeout)
    }

    /// The deadlock check before waiting for a filesystem lock. When a requester
    /// other than `requester_id` holds `path` (the first such holder), the wait of
    /// `requester_id` for it is registered; if that wait closes a cycle the wait
    /// is withdrawn and the answer is `DeadlockDetected`. Otherwise the answer is
    /// the holder waited for, if any.
    pub fn prepare_acquisition(&mut self, path: &str, requester_id: u128) -> (r: Result<Option<u128>, SentinelError>)
        requires
            old(self).wf(),
        ensures
            final(self).wf(),
            final(self).table() == old(self).table(),
            final(self).deadlock_detector.pending_requests@ == old(self).deadlock_detector.pending_requests@,
            final(self).deadlock_detector.active_locks@ == old(self).deadlock_detector.active_locks@,
            final(self).default_timeout_nanos == old(self).default_timeout_nanos,
            final(self).max_deadlock_retries == old(self).max_deadlock_retries,
            final(self).deadlock_backoff_base_nanos == old(self).deadlock_backoff_base_nanos,
            match first_other(holders_of(old(self).table(), path@), requester_id) {
                None => r == Ok::<Option<u128>, SentinelError>(None) && final(self).deadlock_detector.wait_graph@
                    == old(self).deadlock_detector.wait_graph@,
                Some(h) => {
                    let waited = graph_after_wait(graph_seqs(old(self).deadlock_detector.wait_graph@), requester_id, h);
                    let deadlock = on_cycle(waited, requester_id);
                    &&& deadlock ==> (r matches Err(SentinelError::DeadlockDetected))
                    &&& deadlock ==> graph_seqs(final(self).deadlock_detector.wait_graph@)
                        == graph_after_unwait(waited, requester_id, h)
                    &&& !deadlock ==> r == Ok::<Option<u128>, SentinelError>(Some(h))
                    &&& !deadlock ==> graph_seqs(final(self).deadlock_detector.wait_graph@) == waited
                },
            },
    {
        let holders = match lock_table_get(&self.lock_table, path) {
            Some(v) => v,
            None => Vec::new(),
        };
        let ghost hs = holders@;
        assert(hs == holders_of(self.table(), path@));
        let mut existing: Option<u128> = None;
        let mut i: usize = 0;
        assert(hs.skip(0) =~= hs);
        while i < holders.len()
            invariant_except_break
                existing is None,
            invariant
                i <= hs.len(),
                hs == holders@,
                first_other(hs, requester_id) == first_other(hs.skip(i as int), requester_id),
            ensures
                existing == first_other(hs, requester_id),
            decreases hs.len() - i,
        {
            assert(hs.skip(i as int).drop_first() =~= hs.skip(i + 1));
            if holders[i].0 != requester_id {
                existing = Some(holders[i].0);
                break;
            }
            i += 1;
        }
        match existing {
            Some(holder_id) => {
                let _ = self.deadlock_detector.register_wait(requester_id, holder_id);
                if self.deadlock_detector.detect_deadlock(requester_id) {
                    let _ = self.deadlock_detector.unregister_wait(requester_id, holder_id);
                    return Err(SentinelError::DeadlockDetected);
                }
                Ok(Some(holder_id))
            },
            None => Ok(None),
        }
    }

    fn holders_without(holders: &Holders, requester_id: u128) -> (r: Holders)
        ensures
            r@ == without_holder(holders@, requester_id),
    {
        let mut out: Holders = Vec::new();
        let mut i: usize = 0;
        while i < holders.len()
            invariant
                i <= holders@.len(),
                out@ == without_holder(holders@.take(i as int), requester_id),
            decreases holders@.len() - i,
        {
            assert(holders@.take(i + 1).drop_last() =~= holders@.take(i as int));
            if holders[i].0 != requester_id {
                out.push(holders[i]);
            }
            i += 1;
        }
        assert(holders@.take(i as int) =~= holders@);
        out
    }

    fn current_holders(&self, path: &str) -> (r: Holders)
        ensures
            r@ == holders_of(self.table(), path@),
    {
        match lock_table_get(&self.lock_table, path) {
            Some(v) => v,
            None => Vec::new(),
        }
    }

    /// Records that `requester_id` now holds `path` with `strategy`: it joins the
    /// holders, and every wait it had is withdrawn.
    pub fn record_acquisition(&mut self, path: &str, requester_id: u128, strategy: LockStrategy)
        requires
            old(self).wf(),
        ensures
            final(self).wf(),
            final(self).table() == table_after_acquire(old(self).table(), path@, requester_id, strategy),
            path_map(final(self).deadlock_detector.active_locks@) == path_map(
                old(self).deadlock_detector.active_locks@,
            ).insert(path@, (requester_id, strategy)),
            forall|h: u128| !#[trigger] waits_for(graph_seqs(final(self).deadlock_detector.wait_graph@), h, requester_id),
            forall|h: u128, w: u128|
                w != requester_id ==> (#[trigger] waits_for(graph_seqs(final(self).deadlock_detector.wait_graph@), h, w)
                    <==> waits_for(graph_seqs(old(self).deadlock_detector.wait_graph@), h, w)),
            final(self).deadlock_detector.pending_requests@ == old(self).deadlock_detector.pending_requests@,
            final(self).default_timeout_nanos == old(self).default_timeout_nanos,
            final(self).max_deadlock_retries == old(self).max_deadlock_retries,
            final(self).deadlock_backoff_base_nanos == old(self).deadlock_backoff_base_nanos,
    {
        let current = self.current_holders(path);
        let mut next = Self::holders_without(&current, requester_id);
        next.push((requester_id, strategy));
        lock_table_insert(&mut self.lock_table, path, next);
        self.deadlock_detector.withdraw_waits(requester_id);
        self.deadlock_detector.record_lock_acquired(path, requester_id, strategy);
    }

    /// Abandons an acquisition that did not get its lock (a timeout or an I/O
    /// error): every wait of `requester_id` is withdrawn; nothing else changes.
    pub fn abandon_acquisition(&mut self, requester_id: u128)
        requires
            old(self).wf(),
        ensures
            final(self).wf(),
            final(self).table() == old(self).table(),
            forall|h: u128| !#[trigger] waits_for(graph_seqs(final(self).deadlock_detector.wait_graph@), h, requester_id),
            forall|h: u128, w: u128|
                w != requester_id ==> (#[trigger] waits_for(graph_seqs(final(self).deadlock_detector.wait_graph@), h, w)
                    <==> waits_for(graph_seqs(old(self).deadlock_detector.wait_graph@), h, w)),
            final(self).deadlock_detector.pending_requests@ == old(self).deadlock_detector.pending_requests@,
            final(self).deadlock_detector.active_locks@ == old(self).deadlock_detector.active_locks@,
            final(self).default_timeout_nanos == old(self).default_timeout_nanos,
            final(self).max_deadlock_retries == old(self).max_deadlock_retries,
            final(self).deadlock_backoff_base_nanos == old(self).deadlock_backoff_base_nanos,
    {
        self.deadlock_detector.withdraw_waits(requester_id);
    }

    /// Records that `holder_id` released `path` (its guard was dropped): it leaves
    /// the holders; the path stays locked while others hold it. The detector's
    /// active lock on the path becomes the last remaining holder, or none.
    pub fn release_lock(&mut self, path: &str, holder_id: u128)
        requires
            old(self).wf(),
        ensures
            final(self).wf(),
            final(self).table() == table_after_release(old(self).table(), path@, holder_id),
            ({
                let rest = holders_of(final(self).table(), path@);
                path_map(final(self).deadlock_detector.active_locks@) == if rest.len() == 0 {
                    path_map(old(self).deadlock_detector.active_locks@).remove(path@)
                } else {
                    path_map(old(self).deadlock_detector.active_locks@).insert(path@, rest.last())
                }
            }),
            final(self).deadlock_detector.wait_graph@ == old(self).deadlock_detector.wait_graph@,
            final(self).deadlock_detector.pending_requests@ == old(self).deadlock_detector.pending_requests@,
            final(self).default_timeout_nanos == old(self).default_timeout_nanos,
            final(self).max_deadlock_retries == old(self).max_deadlock_retries,
            final(self).deadlock_backoff_base_nanos == old(self).deadlock_backoff_base_nanos,
    {
        let rest = match lock_table_get(&self.lock_table, path) {
            Some(current) => {
                let next = Self::holders_without(&current, holder_id);
                let copy = Self::holders_without(&current, holder_id);
                lock_table_insert(&mut self.lock_table, path, next);
                copy
            },
            None => Vec::new(),
        };
        if rest.len() == 0 {
            self.deadlock_detector.record_lock_released(path);
        } else {
            let last = rest[rest.len() - 1];
            self.deadlock_detector.record_lock_acquired(path, last.0, last.1);
        }
    }

    /// Force release a lock (used for deadlock resolution): a path in the table
    /// loses all its holders, and the detector forgets its active lock.
    pub fn force_release_lock(&mut self, path: &str) -> (r: Result<(), SentinelError>)
        requires
            old(self).wf(),
        ensures
            r is Ok,
            final(self).wf(),
            final(self).table() == table_after_force_release(old(self).table(), path@),
            path_map(final(self).deadlock_detector.active_locks@) == path_map(
                old(self).deadlock_detector.active_locks@,
            ).remove(path@),
            final(self).deadlock_detector.wait_graph@ == old(self).deadlock_detector.wait_graph@,
            final(self).deadlock_detector.pending_requests@ == old(self).deadlock_detector.pending_requests@,
            final(self).default_timeout_nanos == old(self).default_timeout_nanos,
            final(self).max_deadlock_retries == old(self).max_deadlock_retries,
            final(self).deadlock_backoff_base_nanos == old(self).deadlock_backoff_base_nanos,
    {
        if lock_table_get(&self.lock_table, path).is_some() {
            lock_table_insert(&mut self.lock_table, path, Vec::new());
        }
        self.deadlock_detector.record_lock_released(path);
        Ok(())
    }

    /// Upgrades `holder_id`'s shared lock on `path` to an exclusive one: only a
    /// shared lock can be upgraded, and only while no other requester holds the
    /// path (else `LockContention`). A refused upgrade changes nothing.
    pub fn upgrade_lock(&mut self, path: &str, holder_id: u128, current: LockStrategy) -> (r: Result<(), SentinelError>)
        requires
            old(self).wf(),
        ensures
            final(self).wf(),
            current != LockStrategy::Shared ==> (r matches Err(SentinelError::InvalidLockState { reason }) && reason@
                == "cannot upgrade non-shared lock"@),
            current == LockStrategy::Shared && first_other(holders_of(old(self).table(), path@), holder_id) is Some
                ==> (r matches Err(SentinelError::LockContention { reason }) && reason@
                == "other locks are held on the path"@),
            r is Ok <==> current == LockStrategy::Shared && first_other(holders_of(old(self).table(), path@), holder_id)
                is None,
            r is Ok ==> final(self).table() == table_after_acquire(old(self).table(), path@, holder_id, LockStrategy::Exclusive)
                && path_map(final(self).deadlock_detector.active_locks@) == path_map(
                old(self).deadlock_detector.active_locks@,
            ).insert(path@, (holder_id, LockStrategy::Exclusive)),
            r is Err ==> final(self).table() == old(self).table() && final(self).deadlock_detector.active_locks@
                == old(self).deadlock_detector.active_locks@,
            final(self).deadlock_detector.wait_graph@ == old(self).deadlock_detector.wait_graph@,
            final(self).deadlock_detector.pending_requests@ == old(self).deadlock_detector.pending_requests@,
            final(self).default_timeout_nanos == old(self).default_timeout_nanos,
            final(self).max_deadlock_retries == old(self).max_deadlock_retries,
            final(self).deadlock_backoff_base_nanos == old(self).deadlock_backoff_base_nanos,
    {
        if current != LockStrategy::Shared {
            return Err(SentinelError::InvalidLockState { reason: "cannot upgrade non-shared lock".to_owned() });
        }
        let holders = self.current_holders(path);
        let ghost hs = holders@;
        let mut others = false;
        let mut i: usize = 0;
        assert(hs.skip(0) =~= hs);
        while i < holders.len()
            invariant_except_break
                !others,
            invariant
                i <= hs.len(),
                hs == holders@,
                first_other(hs, holder_id) == first_other(hs.skip(i as int), holder_id),
            ensures
                others == (first_other(hs, holder_id) is Some),
            decreases hs.len() - i,
        {
            assert(hs.skip(i as int).drop_first() =~= hs.skip(i + 1));
            if holders[i].0 != holder_id {
                others = true;
                break;
            }
            i += 1;
        }
        if others {
            return Err(SentinelError::LockContention { reason: "other locks are held on the path".to_owned() });
        }
        self.record_holder(path, holder_id, LockStrategy::Exclusive);
        Ok(())
    }

    /// Downgrades `holder_id`'s exclusive lock on `path` to a shared one: only an
    /// exclusive lock can be downgraded. The table records the holder as shared.
    pub fn downgrade_lock(&mut self, path: &str, holder_id: u128, current: LockStrategy) -> (r: Result<(), SentinelError>)
        requires
            old(self).wf(),
        ensures
            final(self).wf(),
            r is Ok <==> current == LockStrategy::Exclusive,
            r matches Err(e) ==> (e matches SentinelError::InvalidLockState { reason } && reason@
                == "cannot downgrade non-exclusive lock"@),
            r is Ok ==> final(self).table() == table_after_acquire(old(self).table(), path@, holder_id, LockStrategy::Shared)
                && path_map(final(self).deadlock_detector.active_locks@) == path_map(
                old(self).deadlock_detector.active_locks@,
            ).insert(path@, (holder_id, LockStrategy::Shared)),
            r is Err ==> final(self).table() == old(self).table() && final(self).deadlock_detector.active_locks@
                == old(self).deadlock_detector.active_locks@,
            final(self).deadlock_detector.wait_graph@ == old(self).deadlock_detector.wait_graph@,
            final(self).deadlock_detector.pending_requests@ == old(self).deadlock_detector.pending_requests@,
            final(self).default_timeout_nanos == old(self).default_timeout_nanos,
            final(self).max_deadlock_retries == old(self).max_deadlock_retries,
            final(self).deadlock_backoff_base_nanos == old(self).deadlock_backoff_base_nanos,
    {
        if current != LockStrategy::Exclusive {
            return Err(SentinelError::InvalidLockState { reason: "cannot downgrade non-exclusive lock".to_owned() });
        }
        self.record_holder(path, holder_id, LockStrategy::Shared);
        Ok(())
    }

    fn record_holder(&mut self, path: &str, holder_id: u128, strategy: LockStrategy)
        requires
            old(self).wf(),
        ensures
            final(self).wf(),
            final(self).table() == table_after_acquire(old(self).table(), path@, holder_id, strategy),
            path_map(final(self).deadlock_detector.active_locks@) == path_map(
                old(self).deadlock_detector.active_locks@,
            ).insert(path@, (holder_id, strategy)),
            final(self).deadlock_detector.wait_graph@ == old(self).deadlock_detector.wait_graph@,
            final(self).deadlock_detector.pending_requests@ == old(self).deadlock_detector.pending_requests@,
            final(self).default_timeout_nanos == old(self).default_timeout_nanos,
            final(self).max_deadlock_retries == old(self).max_deadlock_retries,
            final(self).deadlock_backoff_base_nanos == old(self).deadlock_backoff_base_nanos,
    {
        let current = self.current_holders(path);
        let mut next = Self::holders_without(&current, holder_id);
        next.push((holder_id, strategy));
        lock_table_insert(&mut self.lock_table, path, next);
        self.deadlock_detector.record_lock_acquired(path, holder_id, strategy);
    }

    /// Check if a path is currently locked: it has a holder.
    pub fn is_locked(&self, path: &str) -> (r: bool)
        ensures
            r == (holders_of(self.table(), path@).len() > 0),
    {
        self.current_holders(path).len() > 0
    }

    /// The current holder of the lock on a path and its strategy: the one that
    /// acquired it last, among those that hold it now.
    pub fn get_lock_holder(&self, path: &str) -> (r: Option<(u128, LockStrategy)>)
        ensures
            r == (if holders_of(self.table(), path@).len() > 0 {
                Some(holders_of(self.table(), path@).last())
            } else {
                None
            }),
    {
        let hs = self.current_holders(path);
        if hs.len() > 0 {
            Some(hs[hs.len() - 1])
        } else {
            None
        }
    }

    /// After a successful acquisition the requester is the holder that
    /// `get_lock_holder` reports, with the strategy it asked for.
    pub proof fn lemma_acquirer_is_holder(t: Map<Seq<char>, Seq<(u128, LockStrategy)>>, path: Seq<char>, requester: u128, strategy: LockStrategy)
        ensures
            holders_of(table_after_acquire(t, path, requester, strategy), path).len() > 0,
            holders_of(table_after_acquire(t, path, requester, strategy), path).last() == (requester, strategy),
    {
    }

    /// Statistics about the lock manager.
    pub fn get_stats(&self) -> (r: LockManagerStats)
        requires
            total_requests(self.deadlock_detector.pending_requests@) <= usize::MAX,
        ensures
            r.active_locks == self.table().len(),
            r.total_pending_requests == total_requests(self.deadlock_detector.pending_requests@),
            r.paths_with_pending_requests == self.deadlock_detector.pending_requests@.len(),
    {
        let active_locks = lock_table_len(&self.lock_table);
        let pending = &self.deadlock_detector.pending_requests;
        let mut total: usize = 0;
        let mut i: usize = 0;
        while i < pending.len()
            invariant
                i <= pending@.len(),
                total == total_requests(pending@.take(i as int)),
                total_requests(pending@) <= usize::MAX,
            decreases pending@.len() - i,
        {
            proof {
                assert(pending@.take(i + 1).drop_last() =~= pending@.take(i as int));
                lemma_total_requests_prefix(pending@, i + 1);
            }
            total = total + pending[i].1.len();
            i += 1;
        }
        assert(pending@.take(i as int) =~= pending@);
        LockManagerStats { active_locks, total_pending_requests: total, paths_with_pending_requests: pending.len() }
    }

    /// The backoff delay after the failed attempt `retry`, `base * 2^retry`
    /// nanoseconds, when `2^retry` fits 32 bits and the delay is a valid duration.
    pub fn backoff_delay(&self, retry: u32) -> (r: Option<u128>)
        requires
            self.wf(),
        ensures
            r is Some <==> backoff_fits(self.deadlock_backoff_base_nanos, retry),
            r matches Some(d) ==> d == self.deadlock_backoff_base_nanos * vstd::arithmetic::power2::pow2(retry as nat),
    {
        if retry >= 32 {
            return None;
        }
        let mut factor: u128 = 1;
        let mut k: u32 = 0;
        proof {
            vstd::arithmetic::power2::lemma2_to64();
        }
        while k < retry
            invariant
                k <= retry,
                retry < 32,
                factor == vstd::arithmetic::power2::pow2(k as nat),
            decreases retry - k,
        {
            proof {
                vstd::arithmetic::power2::lemma_pow2_unfold((k + 1) as nat);
                vstd::arithmetic::power2::lemma_pow2_strictly_increases(k as nat, 32);
                vstd::arithmetic::power2::lemma2_to64();
            }
            factor = factor * 2;
            k += 1;
        }
        let base = self.deadlock_backoff_base_nanos;
        proof {
            vstd::arithmetic::power2::lemma_pow2_strictly_increases(retry as nat, 32);
            vstd::arithmetic::power2::lemma2_to64();
            assert(base * factor <= max_duration_nanos() * 0x1_0000_0000) by (nonlinear_arith)
                requires
                    base <= max_duration_nanos(),
                    factor <= 0x1_0000_0000,
            ;
        }
        let delay = base * factor;
        if delay > 18446744073709551615999999999u128 {
            return None;
        }
        Some(delay)
    }

    /// The decision after an attempt failed: after a deadlock, while retries are
    /// left (`retry < max_deadlock_retries`), wait `base * 2^retry` nanoseconds and
    /// try again; otherwise give up. A retry needs that delay to be formed
    /// (`backoff_fits`); callers test it with `backoff_delay` first.
    pub fn after_failed_attempt(&self, retry: u32, deadlock: bool) -> (r: RetryDecision)
        requires
            self.wf(),
            deadlock && retry < self.max_deadlock_retries ==> backoff_fits(self.deadlock_backoff_base_nanos, retry),
        ensures
            !(deadlock && retry < self.max_deadlock_retries) ==> r == RetryDecision::GiveUp,
            deadlock && retry < self.max_deadlock_retries ==> r == (RetryDecision::Retry {
                delay_nanos: (self.deadlock_backoff_base_nanos * vstd::arithmetic::power2::pow2(retry as nat)) as u128,
            }),
    {
        if !(deadlock && retry < self.max_deadlock_retries) {
            return RetryDecision::GiveUp;
        }
        match self.backoff_delay(retry) {
            Some(delay_nanos) => RetryDecision::Retry { delay_nanos },
            None => RetryDecision::GiveUp,
        }
    }
}

proof fn lemma_total_requests_prefix(m: Seq<(String, Vec<crate::deadlock::LockRequest>)>, k: int)
    requires
        0 <= k <= m.len(),
    ensures
        total_requests(m.take(k)) <= total_requests(m),
    decreases m.len() - k,
{
    if k < m.len() {
        lemma_total_requests_prefix(m, k + 1);
        assert(m.take(k + 1).drop_last() =~= m.take(k));
        assert(total_requests(m.take(k + 1)) == total_requests(m.take(k)) + m.take(k + 1).last().1@.len());
    } else {
        assert(m.take(k) =~= m);
    }
}

impl Default for FileLockManager {
    /// The manager of `FileLockManager::new`.
    fn default() -> (r: FileLockManager)
        ensures
            r.wf(),
            r.table() == Map::<Seq<char>, Seq<(u128, LockStrategy)>>::empty(),
            r.deadlock_detector.wait_graph@ == Map::<u128, Vec<u128>>::empty(),
            r.default_timeout_nanos == 30_000_000_000,
            r.max_deadlock_retries == 3,
            r.deadlock_backoff_base_nanos == 100_000_000,
    {
        FileLockManager::new()
    }
}

} // verus!
