use task_sync::task::manager::{SchedEntry, TaskManager, BIG_STRIDE};

fn entry(task: usize, stride: usize, priority: usize) -> SchedEntry {
    SchedEntry { task, stride, priority }
}

#[test]
fn fetch_from_empty_is_none() {
    let mut m = TaskManager::new();
    assert_eq!(m.fetch(), None);
}

#[test]
fn added_task_is_fetched_next() {
    let mut m = TaskManager::new();
    m.add(entry(1, 10, 16));
    assert_eq!(m.fetch(), Some(entry(1, 10 + BIG_STRIDE / 16, 16)));
    assert!(m.ready_queue.is_empty());
}

#[test]
fn fetch_takes_the_first_smallest_stride() {
    let mut m = TaskManager::new();
    m.add(entry(1, 30, 2));
    m.add(entry(2, 10, 4));
    m.add(entry(3, 10, 8));
    m.add(entry(4, 20, 2));
    assert_eq!(m.fetch(), Some(entry(2, 74, 4)));
    assert_eq!(m.ready_queue, vec![entry(1, 30, 2), entry(3, 10, 8), entry(4, 20, 2)]);
    assert_eq!(m.fetch(), Some(entry(3, 42, 8)));
    assert_eq!(m.fetch(), Some(entry(4, 148, 2)));
    assert_eq!(m.fetch(), Some(entry(1, 158, 2)));
    assert_eq!(m.fetch(), None);
}

#[test]
fn equal_strides_run_in_arrival_order() {
    let mut m = TaskManager::new();
    m.add(entry(7, 0, 16));
    m.add(entry(8, 0, 16));
    m.add(entry(9, 0, 16));
    assert_eq!(m.fetch().map(|e| e.task), Some(7));
    assert_eq!(m.fetch().map(|e| e.task), Some(8));
    assert_eq!(m.fetch().map(|e| e.task), Some(9));
}

#[test]
fn next_index_is_what_fetch_takes() {
    let mut m = TaskManager::new();
    assert_eq!(m.next_index(), None);
    m.add(entry(1, 5, 2));
    m.add(entry(2, 3, 2));
    m.add(entry(3, 3, 2));
    assert_eq!(m.next_index(), Some(1));
    assert_eq!(m.fetch().map(|e| e.task), Some(2));
}
