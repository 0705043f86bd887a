use task_sync::sync::semaphore::Semaphore;

#[test]
fn new_semaphore_counts_units() {
    let s = Semaphore::new(2);
    assert_eq!(s.inner.count, 2);
    assert!(s.inner.wait_queue.is_empty());
}

#[test]
fn down_blocks_when_no_unit_is_left() {
    let mut s = Semaphore::new(1);
    assert!(!s.down(7));
    assert_eq!(s.inner.count, 0);
    assert!(s.down(8));
    assert!(s.down(9));
    assert_eq!(s.inner.count, -2);
    assert_eq!(s.inner.wait_queue.iter().copied().collect::<Vec<_>>(), vec![8, 9]);
}

#[test]
fn up_wakes_the_oldest_waiter() {
    let mut s = Semaphore::new(0);
    assert!(s.down(4));
    assert!(s.down(5));
    assert_eq!(s.up(), Some(4));
    assert_eq!(s.up(), Some(5));
    assert_eq!(s.up(), None);
    assert_eq!(s.inner.count, 1);
    assert!(s.inner.wait_queue.is_empty());
}

#[test]
fn down_then_up_restores() {
    let mut s = Semaphore::new(0);
    assert!(s.down(3));
    assert_eq!(s.up(), Some(3));
    assert_eq!(s.inner.count, 0);
    assert!(s.inner.wait_queue.is_empty());
    let mut t = Semaphore::new(2);
    assert!(!t.down(3));
    assert_eq!(t.up(), None);
    assert_eq!(t.inner.count, 2);
}
