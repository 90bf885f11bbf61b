use sentinel_dbms::deadlock::{DeadlockDetector, LockRequest, LockStrategy};
use sentinel_dbms::error::SentinelError;
use sentinel_dbms::locking::{lock_timeout_error, FileLockManager, RetryDecision};

#[test]
fn test_deadlockdetector_cycle_detection() {
    let mut detector = DeadlockDetector::new();
    let (pid1, pid2, pid3) = (11u128, 22u128, 33u128);
    detector.register_wait(pid1, pid2).unwrap();
    detector.register_wait(pid2, pid3).unwrap();
    detector.register_wait(pid3, pid1).unwrap();
    assert!(detector.detect_deadlock(pid1));
    assert!(detector.detect_deadlock(pid2));
    assert!(detector.detect_deadlock(pid3));
}

#[test]
fn test_deadlockdetector_wait_graph_updates() {
    let mut detector = DeadlockDetector::new();
    let (pid1, pid2) = (1u128, 2u128);
    detector.register_wait(pid1, pid2).unwrap();
    assert!(detector.wait_graph.contains_key(&pid2));
    assert_eq!(detector.wait_graph.get(&pid2).unwrap().len(), 1);
    assert!(detector.wait_graph.get(&pid2).unwrap().contains(&pid1));
    detector.unregister_wait(pid1, pid2).unwrap();
    assert!(!detector.wait_graph.contains_key(&pid2));
}

#[test]
fn test_deadlockdetector_resolution_logic() {
    let mut detector = DeadlockDetector::new();
    let (pid1, pid2, pid3) = (5u128, 6u128, 7u128);
    detector.register_wait(pid1, pid2).unwrap();
    detector.register_wait(pid2, pid3).unwrap();
    detector.register_wait(pid3, pid1).unwrap();
    let deadlocked = detector.find_deadlocked_transactions();
    assert!(!deadlocked.is_empty());
    for pid in deadlocked {
        assert!(pid == pid1 || pid == pid2 || pid == pid3);
    }
    detector.unregister_wait(pid1, pid2).unwrap();
    detector.unregister_wait(pid2, pid3).unwrap();
    detector.unregister_wait(pid3, pid1).unwrap();
    assert!(detector.find_deadlocked_transactions().is_empty());
}

#[test]
fn chain_and_diamond_are_no_deadlock() {
    let mut detector = DeadlockDetector::new();
    detector.register_wait(1, 2).unwrap();
    detector.register_wait(2, 3).unwrap();
    assert!(!detector.detect_deadlock(1));
    assert!(!detector.detect_deadlock(3));
    detector.register_wait(1, 4).unwrap();
    detector.register_wait(4, 3).unwrap();
    assert!(!detector.detect_deadlock(1));
    assert!(detector.find_deadlocked_transactions().is_empty());
}

#[test]
fn only_transactions_on_the_cycle_are_victims() {
    let mut detector = DeadlockDetector::new();
    detector.register_wait(1, 2).unwrap();
    detector.register_wait(2, 1).unwrap();
    detector.register_wait(3, 1).unwrap();
    assert!(detector.detect_deadlock(1));
    assert!(detector.detect_deadlock(2));
    assert!(!detector.detect_deadlock(3));
    let victims = detector.find_deadlocked_transactions();
    assert!(!victims.is_empty());
    assert!(victims.iter().all(|v| *v == 1 || *v == 2));
}

#[test]
fn pending_requests_are_counted() {
    let mut m = FileLockManager::new();
    m.deadlock_detector.register_request(LockRequest {
        path: "/a".to_string(),
        strategy: LockStrategy::Shared,
        started_at_ms: 0,
        timeout_ms: 10,
        requester_id: 1,
    });
    m.deadlock_detector.register_request(LockRequest {
        path: "/a".to_string(),
        strategy: LockStrategy::Exclusive,
        started_at_ms: 0,
        timeout_ms: 10,
        requester_id: 2,
    });
    let stats = m.get_stats();
    assert_eq!(stats.total_pending_requests, 2);
    assert_eq!(stats.paths_with_pending_requests, 1);
    m.deadlock_detector.unregister_request("/a", 1);
    m.deadlock_detector.unregister_request("/a", 2);
    let stats = m.get_stats();
    assert_eq!(stats.total_pending_requests, 0);
    assert_eq!(stats.paths_with_pending_requests, 0);
}

#[test]
fn test_filelockmanager_stats() {
    let manager = FileLockManager::new();
    let stats = manager.get_stats();
    assert_eq!(stats.active_locks, 0);
    assert_eq!(stats.total_pending_requests, 0);
    assert_eq!(stats.paths_with_pending_requests, 0);
}

#[test]
fn acquire_then_release_unlocks() {
    let mut m = FileLockManager::with_config(60_000_000_000, 5, 200_000_000);
    assert!(!m.is_locked("/tmp/x.lock"));
    assert_eq!(m.prepare_acquisition("/tmp/x.lock", 9).unwrap(), None);
    m.record_acquisition("/tmp/x.lock", 9, LockStrategy::Shared);
    assert!(m.is_locked("/tmp/x.lock"));
    assert_eq!(m.get_lock_holder("/tmp/x.lock"), Some((9, LockStrategy::Shared)));
    assert!(!m.is_locked("/tmp/y.lock"));
    m.release_lock("/tmp/x.lock", 9);
    assert!(!m.is_locked("/tmp/x.lock"));
    assert_eq!(m.get_lock_holder("/tmp/x.lock"), None);
    assert_eq!(m.get_stats().active_locks, 1);
    m.release_lock("/tmp/x.lock", 9);
    assert!(!m.is_locked("/tmp/x.lock"));
    m.force_release_lock("/tmp/never.lock").unwrap();
    assert_eq!(m.get_stats().active_locks, 1);
}

#[test]
fn test_filelockmanager_cleanup_on_drop() {
    let mut m = FileLockManager::new();
    let p = "/tmp/shared.lock";
    m.prepare_acquisition(p, 1).unwrap();
    m.record_acquisition(p, 1, LockStrategy::Shared);
    // The second shared requester waits for the first, then gets the lock.
    assert_eq!(m.prepare_acquisition(p, 2).unwrap(), Some(1));
    m.record_acquisition(p, 2, LockStrategy::Shared);
    assert_eq!(m.get_lock_holder(p), Some((2, LockStrategy::Shared)));
    m.release_lock(p, 1);
    assert!(m.is_locked(p));
    assert_eq!(m.get_lock_holder(p), Some((2, LockStrategy::Shared)));
    m.release_lock(p, 2);
    assert!(!m.is_locked(p));
    assert_eq!(m.get_lock_holder(p), None);
}

#[test]
fn granted_or_abandoned_requests_stop_waiting() {
    let mut m = FileLockManager::new();
    m.record_acquisition("/a", 1, LockStrategy::Exclusive);
    assert_eq!(m.prepare_acquisition("/a", 2).unwrap(), Some(1));
    assert!(m.deadlock_detector.wait_graph.get(&1).unwrap().contains(&2));
    m.release_lock("/a", 1);
    m.record_acquisition("/a", 2, LockStrategy::Exclusive);
    assert!(!m.deadlock_detector.wait_graph.contains_key(&1));
    // 1 now waits for 2 and gives up (a timeout): the wait is withdrawn.
    assert_eq!(m.prepare_acquisition("/a", 1).unwrap(), Some(2));
    m.abandon_acquisition(1);
    assert!(!m.deadlock_detector.wait_graph.contains_key(&2));
    // With the stale waits gone, 2 waiting for 1 on another path is no deadlock.
    m.record_acquisition("/b", 1, LockStrategy::Exclusive);
    assert_eq!(m.prepare_acquisition("/b", 2).unwrap(), Some(1));
}

#[test]
fn second_requester_deadlock_is_refused() {
    let mut m = FileLockManager::new();
    m.record_acquisition("/a", 1, LockStrategy::Exclusive);
    m.record_acquisition("/b", 2, LockStrategy::Exclusive);
    // 1 waits for /b (held by 2): no cycle yet.
    assert_eq!(m.prepare_acquisition("/b", 1).unwrap(), Some(2));
    // 2 waits for /a (held by 1): closes the cycle.
    assert!(matches!(m.prepare_acquisition("/a", 2), Err(SentinelError::DeadlockDetected)));
    // The refused wait was withdrawn.
    assert!(!m.deadlock_detector.detect_deadlock(2));
    // A holder re-acquiring its own path does not wait.
    assert_eq!(m.prepare_acquisition("/a", 1).unwrap(), None);
}

#[test]
fn retries_back_off_exponentially() {
    let m = FileLockManager::new();
    assert_eq!(m.after_failed_attempt(0, true), RetryDecision::Retry { delay_nanos: 100_000_000 });
    assert_eq!(m.after_failed_attempt(1, true), RetryDecision::Retry { delay_nanos: 200_000_000 });
    assert_eq!(m.after_failed_attempt(2, true), RetryDecision::Retry { delay_nanos: 400_000_000 });
    assert_eq!(m.after_failed_attempt(3, true), RetryDecision::GiveUp);
    assert_eq!(m.after_failed_attempt(0, false), RetryDecision::GiveUp);
    assert_eq!(m.backoff_delay(31), Some(100_000_000u128 << 31));
    assert_eq!(m.backoff_delay(32), None);
    let huge = FileLockManager::with_config(1, 100, 18_446_744_073_709_551_615_999_999_999);
    assert_eq!(huge.backoff_delay(0), Some(18_446_744_073_709_551_615_999_999_999));
    assert_eq!(huge.backoff_delay(1), None);
}

#[test]
fn new_acquisition_uses_default_timeout() {
    let m = FileLockManager::new();
    assert_eq!(m.new_acquisition(None).1, 30_000_000_000);
    assert_eq!(m.new_acquisition(Some(5)).1, 5);
}

#[test]
fn upgrades_and_downgrades() {
    let mut m = FileLockManager::new();
    let p = "/tmp/up.lock";
    m.record_acquisition(p, 1, LockStrategy::Shared);
    assert!(m.upgrade_lock(p, 1, LockStrategy::Shared).is_ok());
    assert_eq!(m.get_lock_holder(p), Some((1, LockStrategy::Exclusive)));
    match m.upgrade_lock(p, 1, LockStrategy::Exclusive) {
        Err(SentinelError::InvalidLockState { reason }) => assert_eq!(reason, "cannot upgrade non-shared lock"),
        _ => panic!("upgrade must fail"),
    }
    assert!(m.downgrade_lock(p, 1, LockStrategy::Exclusive).is_ok());
    assert_eq!(m.get_lock_holder(p), Some((1, LockStrategy::Shared)));
    match m.downgrade_lock(p, 1, LockStrategy::Shared) {
        Err(SentinelError::InvalidLockState { reason }) => assert_eq!(reason, "cannot downgrade non-exclusive lock"),
        _ => panic!("downgrade must fail"),
    }
    m.record_acquisition(p, 2, LockStrategy::Shared);
    assert_eq!(m.get_lock_holder(p), Some((2, LockStrategy::Shared)));
    assert!(matches!(m.upgrade_lock(p, 1, LockStrategy::Shared), Err(SentinelError::LockContention { .. })));
    assert_eq!(m.get_lock_holder(p), Some((2, LockStrategy::Shared)));
}

#[test]
fn timeout_error_in_milliseconds() {
    match lock_timeout_error("/p", 2_500_000_000) {
        SentinelError::LockTimeout { path, timeout_ms } => {
            assert_eq!(path, "/p");
            assert_eq!(timeout_ms, 2500);
        },
        _ => panic!("expected a timeout"),
    }
}
