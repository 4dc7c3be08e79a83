use os_sync::sync::mutex::{AnyMutex, LockOutcome, Mutex, MutexBlocking, MutexSpin};

#[test]
fn spin_mutex_lock_and_unlock() {
    let mut m = MutexSpin::new();
    assert_eq!(m.get_available(), 1);
    assert!(m.get_allocated().is_none());
    assert!(matches!(m.lock(2), LockOutcome::Acquired));
    assert_eq!(m.get_available(), 0);
    assert_eq!(m.get_allocated(), Some(vec![2]));
    assert!(m.get_need().is_none());
    assert!(matches!(m.lock(3), LockOutcome::Busy));
    assert_eq!(m.get_allocated(), Some(vec![2]));
    assert_eq!(m.unlock(2), None);
    assert_eq!(m.get_available(), 1);
    assert!(matches!(m.lock(3), LockOutcome::Acquired));
    assert_eq!(m.get_allocated(), Some(vec![3]));
}

#[test]
fn blocking_mutex_queues_and_hands_over() {
    let mut m = MutexBlocking::new();
    assert!(matches!(m.lock(1), LockOutcome::Acquired));
    assert!(matches!(m.lock(2), LockOutcome::Blocked));
    assert!(matches!(m.lock(3), LockOutcome::Blocked));
    assert_eq!(m.get_need(), Some(vec![2, 3]));
    assert_eq!(m.get_allocated(), Some(vec![1]));
    // The unlock hands the mutex on, and records the unlocking thread.
    assert_eq!(m.unlock(1), Some(2));
    assert_eq!(m.get_available(), 0);
    assert_eq!(m.get_allocated(), Some(vec![1]));
    assert_eq!(m.get_need(), Some(vec![3]));
    assert_eq!(m.unlock(2), Some(3));
    assert_eq!(m.get_allocated(), Some(vec![2]));
    assert!(m.get_need().is_none());
    assert_eq!(m.unlock(3), None);
    assert_eq!(m.get_available(), 1);
    assert!(m.get_allocated().is_none());
}

#[test]
fn any_mutex_dispatches() {
    let mut s = AnyMutex::Spin(MutexSpin::new());
    let mut b = AnyMutex::Blocking(MutexBlocking::new());
    assert!(matches!(s.lock(0), LockOutcome::Acquired));
    assert!(matches!(b.lock(0), LockOutcome::Acquired));
    assert!(matches!(s.lock(1), LockOutcome::Busy));
    assert!(matches!(b.lock(1), LockOutcome::Blocked));
    assert!(s.get_need().is_none());
    assert_eq!(b.get_need(), Some(vec![1]));
    assert_eq!(s.unlock(0), None);
    assert_eq!(b.unlock(0), Some(1));
}

#[test]
fn lock_then_unlock_gives_a_free_mutex_back() {
    let mut m = MutexBlocking::new();
    assert!(matches!(m.lock(5), LockOutcome::Acquired));
    assert_eq!(m.unlock(5), None);
    assert_eq!(m.get_available(), 1);
    assert!(m.get_need().is_none());
}
