use os_sync::sync::condvar::Condvar;
use os_sync::sync::mutex::{AnyMutex, LockOutcome, Mutex, MutexBlocking};

#[test]
fn condvar_signal_on_empty_wakes_nobody() {
    let mut c = Condvar::new();
    assert_eq!(c.signal(), None);
}

#[test]
fn condvar_wait_releases_mutex_and_signal_wakes_in_order() {
    let mut c = Condvar::new();
    let mut m = AnyMutex::Blocking(MutexBlocking::new());
    assert!(matches!(m.lock(1), LockOutcome::Acquired));
    assert_eq!(c.wait(&mut m, 1), None);
    assert_eq!(m.get_available(), 1);
    assert!(matches!(m.lock(2), LockOutcome::Acquired));
    assert_eq!(c.wait(&mut m, 2), None);
    assert_eq!(c.signal(), Some(1));
    assert_eq!(c.signal(), Some(2));
    assert_eq!(c.signal(), None);
}

#[test]
fn condvar_wait_hands_mutex_to_a_queued_thread() {
    let mut c = Condvar::new();
    let mut m = AnyMutex::Blocking(MutexBlocking::new());
    assert!(matches!(m.lock(1), LockOutcome::Acquired));
    assert!(matches!(m.lock(2), LockOutcome::Blocked));
    assert_eq!(c.wait(&mut m, 1), Some(2));
    assert_eq!(m.get_available(), 0);
    assert_eq!(c.wait_queue.len(), 1);
}
