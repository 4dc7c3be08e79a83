use os_sync::sync::semaphore::Semaphore;

#[test]
fn semaphore_new_is_free() {
    let s = Semaphore::new(2);
    assert_eq!(s.inner.count, 2);
    assert_eq!(s.get_available(), 2);
    assert!(s.get_allocated().is_none());
    assert!(s.get_need().is_none());
}

#[test]
fn semaphore_down_grants_until_empty_then_blocks() {
    let mut s = Semaphore::new(2);
    assert!(!s.down(3));
    assert!(!s.down(5));
    assert_eq!(s.get_available(), 0);
    assert_eq!(s.get_allocated(), Some(vec![3, 5]));
    assert!(s.down(7));
    assert!(s.down(8));
    assert_eq!(s.inner.count, -2);
    assert_eq!(s.get_available(), 0);
    assert_eq!(s.get_need(), Some(vec![7, 8]));
    assert_eq!(s.get_allocated(), Some(vec![3, 5]));
}

#[test]
fn semaphore_up_wakes_in_fifo_order() {
    let mut s = Semaphore::new(0);
    assert!(s.down(1));
    assert!(s.down(2));
    assert_eq!(s.up(), Some(1));
    assert_eq!(s.get_need(), Some(vec![2]));
    assert_eq!(s.up(), Some(2));
    assert!(s.get_need().is_none());
    assert_eq!(s.up(), None);
    assert_eq!(s.get_available(), 1);
}

#[test]
fn semaphore_up_keeps_the_grants() {
    let mut s = Semaphore::new(1);
    assert!(!s.down(4));
    assert_eq!(s.up(), None);
    assert_eq!(s.get_available(), 1);
    assert_eq!(s.get_allocated(), Some(vec![4]));
}

#[test]
fn semaphore_down_then_up_restores_count() {
    let mut s = Semaphore::new(3);
    let before = s.inner.count;
    let blocked = s.down(9);
    let woken = s.up();
    assert!(!blocked);
    assert_eq!(woken, None);
    assert_eq!(s.inner.count, before);

    let mut e = Semaphore::new(0);
    let blocked = e.down(6);
    let woken = e.up();
    assert!(blocked);
    assert_eq!(woken, Some(6));
    assert_eq!(e.inner.count, 0);
    assert_eq!(e.inner.wait_queue.len(), 0);
}

#[test]
fn semaphore_huge_count_wraps_like_a_cast() {
    let s = Semaphore::new(usize::MAX);
    assert_eq!(s.inner.count, -1);
    assert_eq!(s.get_available(), 0);
}

#[test]
fn semaphore_balance_holds_through_ups_and_downs() {
    let mut s = Semaphore::new(1);
    let balanced = |s: &Semaphore| {
        let want = if s.inner.count < 0 { (-s.inner.count) as usize } else { 0 };
        s.inner.wait_queue.len() == want
    };
    assert!(balanced(&s));
    for t in 0..4 {
        s.down(t);
        assert!(balanced(&s));
    }
    for _ in 0..5 {
        s.up();
        assert!(balanced(&s));
    }
}
