use os_sync::sync::mutex::{LockOutcome, Mutex};
use os_sync::syscall::sync::{
    lock_slot, sys_condvar_create, sys_condvar_signal, sys_condvar_wait,
    sys_enable_deadlock_detect, sys_mutex_create, sys_mutex_lock, sys_mutex_unlock,
    sys_semaphore_create, sys_semaphore_down, sys_semaphore_up, sys_sleep, ProcessSync, DEADLOCK,
};

#[test]
fn deadlock_value() {
    assert_eq!(DEADLOCK, -0xdead);
    assert_eq!(DEADLOCK, -57005);
}

#[test]
fn mutex_create_fills_lowest_free_slot() {
    let mut p = ProcessSync::new(2);
    assert_eq!(sys_mutex_create(&mut p, false), 0);
    assert_eq!(sys_mutex_create(&mut p, true), 1);
    assert_eq!(sys_mutex_create(&mut p, true), 2);
    p.mutex_list[1] = None;
    assert_eq!(sys_mutex_create(&mut p, false), 1);
    assert_eq!(p.mutex_list.len(), 3);
    assert_eq!(sys_mutex_create(&mut p, false), 3);
}

#[test]
fn mutex_create_kind_follows_flag() {
    let mut p = ProcessSync::new(2);
    let spin = sys_mutex_create(&mut p, false) as usize;
    let sleep = sys_mutex_create(&mut p, true) as usize;
    assert!(matches!(sys_mutex_lock(&mut p, spin, 0), (0, Some(LockOutcome::Acquired))));
    assert!(matches!(sys_mutex_lock(&mut p, spin, 1), (0, Some(LockOutcome::Busy))));
    assert!(matches!(sys_mutex_lock(&mut p, sleep, 0), (0, Some(LockOutcome::Acquired))));
    assert!(matches!(sys_mutex_lock(&mut p, sleep, 1), (0, Some(LockOutcome::Blocked))));
}

#[test]
fn mutex_unlock_wakes_waiter() {
    let mut p = ProcessSync::new(3);
    let m = sys_mutex_create(&mut p, true) as usize;
    assert!(matches!(sys_mutex_lock(&mut p, m, 0), (0, Some(LockOutcome::Acquired))));
    assert!(matches!(sys_mutex_lock(&mut p, m, 2), (0, Some(LockOutcome::Blocked))));
    assert_eq!(sys_mutex_unlock(&mut p, m, 0), (0, Some(2)));
    assert_eq!(sys_mutex_unlock(&mut p, m, 2), (0, None));
    let slot = p.mutex_list[m].as_ref().unwrap();
    assert_eq!(slot.get_available(), 1);
}

#[test]
fn spin_mutex_retry_after_unlock() {
    let mut p = ProcessSync::new(2);
    let m = sys_mutex_create(&mut p, false) as usize;
    assert!(matches!(sys_mutex_lock(&mut p, m, 0), (0, Some(LockOutcome::Acquired))));
    assert!(matches!(sys_mutex_lock(&mut p, m, 1), (0, Some(LockOutcome::Busy))));
    assert_eq!(sys_mutex_unlock(&mut p, m, 0), (0, None));
    assert!(matches!(lock_slot(&mut p.mutex_list, m, 1), LockOutcome::Acquired));
}

#[test]
fn mutex_deadlock_is_refused_when_detection_on() {
    let mut p = ProcessSync::new(2);
    let a = sys_mutex_create(&mut p, true) as usize;
    let b = sys_mutex_create(&mut p, true) as usize;
    assert_eq!(sys_enable_deadlock_detect(&mut p, 1), 0);
    assert!(matches!(sys_mutex_lock(&mut p, a, 0), (0, Some(LockOutcome::Acquired))));
    assert!(matches!(sys_mutex_lock(&mut p, b, 1), (0, Some(LockOutcome::Acquired))));
    // Thread 0 waits for b: thread 1 can still finish.
    assert!(matches!(sys_mutex_lock(&mut p, b, 0), (0, Some(LockOutcome::Blocked))));
    // Thread 1 asking for a would close the cycle.
    assert!(matches!(sys_mutex_lock(&mut p, a, 1), (DEADLOCK, None)));
    // Nothing changed: b still has thread 0 waiting, a is still held.
    assert_eq!(p.mutex_list[b].as_ref().unwrap().get_need(), Some(vec![0]));
    assert_eq!(p.mutex_list[a].as_ref().unwrap().get_allocated(), Some(vec![0]));
}

#[test]
fn mutex_deadlock_is_not_refused_when_detection_off() {
    let mut p = ProcessSync::new(2);
    let a = sys_mutex_create(&mut p, true) as usize;
    let b = sys_mutex_create(&mut p, true) as usize;
    assert!(matches!(sys_mutex_lock(&mut p, a, 0), (0, Some(LockOutcome::Acquired))));
    assert!(matches!(sys_mutex_lock(&mut p, b, 1), (0, Some(LockOutcome::Acquired))));
    assert!(matches!(sys_mutex_lock(&mut p, b, 0), (0, Some(LockOutcome::Blocked))));
    assert!(matches!(sys_mutex_lock(&mut p, a, 1), (0, Some(LockOutcome::Blocked))));
}

#[test]
fn enable_deadlock_detect_values() {
    let mut p = ProcessSync::new(1);
    assert_eq!(sys_enable_deadlock_detect(&mut p, 1), 0);
    assert!(p.detect_deadlock);
    assert_eq!(sys_enable_deadlock_detect(&mut p, 2), -1);
    assert!(p.detect_deadlock);
    assert_eq!(sys_enable_deadlock_detect(&mut p, 0), 0);
    assert!(!p.detect_deadlock);
    assert_eq!(sys_enable_deadlock_detect(&mut p, 7), -1);
    assert!(!p.detect_deadlock);
}

#[test]
fn semaphore_create_fills_lowest_free_slot() {
    let mut p = ProcessSync::new(1);
    assert_eq!(sys_semaphore_create(&mut p, 1), 0);
    assert_eq!(sys_semaphore_create(&mut p, 2), 1);
    p.semaphore_list[0] = None;
    assert_eq!(sys_semaphore_create(&mut p, 5), 0);
    assert_eq!(p.semaphore_list[0].as_ref().unwrap().get_available(), 5);
}

#[test]
fn semaphore_syscalls_block_and_wake() {
    let mut p = ProcessSync::new(3);
    let s = sys_semaphore_create(&mut p, 1) as usize;
    assert_eq!(sys_semaphore_down(&mut p, s, 0), (0, false));
    assert_eq!(sys_semaphore_down(&mut p, s, 1), (0, true));
    assert_eq!(sys_semaphore_down(&mut p, s, 2), (0, true));
    assert_eq!(sys_semaphore_up(&mut p, s), (0, Some(1)));
    assert_eq!(sys_semaphore_up(&mut p, s), (0, Some(2)));
    assert_eq!(sys_semaphore_up(&mut p, s), (0, None));
}

#[test]
fn semaphore_down_on_empty_semaphore_is_refused_with_detection() {
    let mut p = ProcessSync::new(2);
    let s = sys_semaphore_create(&mut p, 0) as usize;
    sys_enable_deadlock_detect(&mut p, 1);
    assert_eq!(sys_semaphore_down(&mut p, s, 0), (DEADLOCK, false));
    assert_eq!(p.semaphore_list[s].as_ref().unwrap().inner.count, 0);
}

#[test]
fn semaphore_down_with_holder_that_can_finish_is_granted_with_detection() {
    let mut p = ProcessSync::new(2);
    let s = sys_semaphore_create(&mut p, 1) as usize;
    sys_enable_deadlock_detect(&mut p, 1);
    assert_eq!(sys_semaphore_down(&mut p, s, 0), (0, false));
    // Thread 1 waits for the unit thread 0 holds; thread 0 can finish.
    assert_eq!(sys_semaphore_down(&mut p, s, 1), (0, true));
}

#[test]
fn semaphore_down_that_closes_a_cycle_is_refused() {
    let mut p = ProcessSync::new(2);
    let a = sys_semaphore_create(&mut p, 1) as usize;
    let b = sys_semaphore_create(&mut p, 1) as usize;
    sys_enable_deadlock_detect(&mut p, 1);
    assert_eq!(sys_semaphore_down(&mut p, a, 0), (0, false));
    assert_eq!(sys_semaphore_down(&mut p, b, 1), (0, false));
    assert_eq!(sys_semaphore_down(&mut p, b, 0), (0, true));
    assert_eq!(sys_semaphore_down(&mut p, a, 1), (DEADLOCK, false));
}

#[test]
fn condvar_syscalls() {
    let mut p = ProcessSync::new(3);
    let m = sys_mutex_create(&mut p, true) as usize;
    let c = sys_condvar_create(&mut p) as usize;
    assert_eq!(c, 0);
    assert_eq!(sys_condvar_signal(&mut p, c), (0, None));
    assert!(matches!(sys_mutex_lock(&mut p, m, 0), (0, Some(LockOutcome::Acquired))));
    assert!(matches!(sys_mutex_lock(&mut p, m, 1), (0, Some(LockOutcome::Blocked))));
    // Thread 0 waits: the mutex goes to thread 1, which is woken.
    assert_eq!(sys_condvar_wait(&mut p, c, m, 0), (0, Some(1)));
    assert_eq!(sys_condvar_signal(&mut p, c), (0, Some(0)));
    assert_eq!(sys_condvar_signal(&mut p, c), (0, None));
    p.condvar_list[c] = None;
    assert_eq!(sys_condvar_create(&mut p), 0);
}

#[test]
fn sleep_expiry() {
    assert_eq!(sys_sleep(100, 50), 150);
    assert_eq!(sys_sleep(0, 0), 0);
}

#[test]
fn thread_range_checks() {
    let mut p = ProcessSync::new(2);
    let m = sys_mutex_create(&mut p, true) as usize;
    let s = sys_semaphore_create(&mut p, 0) as usize;
    assert!(p.mutex_threads_below());
    assert!(p.semaphore_threads_below());
    assert!(matches!(sys_mutex_lock(&mut p, m, 5), (0, Some(LockOutcome::Acquired))));
    assert!(!p.mutex_threads_below());
    assert_eq!(sys_semaphore_down(&mut p, s, 1), (0, true));
    assert!(p.semaphore_threads_below());
    assert_eq!(sys_semaphore_down(&mut p, s, 4), (0, true));
    assert!(!p.semaphore_threads_below());
}

#[test]
fn semaphore_ids_increase_and_keep_counts() {
    let mut p = ProcessSync::new(1);
    let r1 = sys_semaphore_create(&mut p, 4);
    let r2 = sys_semaphore_create(&mut p, 9);
    assert!(0 <= r1 && r1 < r2);
    assert_eq!(p.semaphore_list[r1 as usize].as_ref().unwrap().inner.count, 4);
    assert_eq!(p.semaphore_list[r2 as usize].as_ref().unwrap().inner.count, 9);
}

#[test]
fn no_waiter_on_free_mutex() {
    let mut p = ProcessSync::new(3);
    let m = sys_mutex_create(&mut p, true) as usize;
    sys_mutex_lock(&mut p, m, 0);
    sys_mutex_lock(&mut p, m, 1);
    sys_mutex_unlock(&mut p, m, 0);
    let slot = p.mutex_list[m].as_ref().unwrap();
    assert!(slot.get_need().is_none() || slot.get_available() == 0);
    sys_mutex_unlock(&mut p, m, 1);
    let slot = p.mutex_list[m].as_ref().unwrap();
    assert_eq!(slot.get_available(), 1);
    assert!(slot.get_need().is_none());
}
