use task_sync::sync::mutex::MutexKind;
use task_sync::syscall::sync::{
    complete_condvar_wait, complete_mutex_lock, complete_semaphore_down, retry_mutex_lock,
    sys_condvar_create, sys_condvar_signal, sys_condvar_wait, sys_enable_deadlock_detect,
    sys_mutex_create, sys_mutex_lock, sys_mutex_unlock, sys_semaphore_create, sys_semaphore_down,
    sys_semaphore_up, sys_sleep,
};
use task_sync::syscall::thread::sys_thread_create;
use task_sync::syscall::{SyscallStep, DEADLOCK};
use task_sync::task::process::ProcessSync;

fn two_threads() -> ProcessSync {
    let mut p = ProcessSync::new(100);
    assert_eq!(sys_thread_create(&mut p, 1, 101, 0x1000, 0, 0x8000, 0x9000, 7, 0x100).0, 1);
    p
}

fn mutex_state(p: &ProcessSync, id: usize) -> (MutexKind, bool, Vec<usize>) {
    let m = p.mutex_list[id].as_ref().unwrap();
    (m.kind, m.locked, m.wait_queue.iter().copied().collect())
}

#[test]
fn mutex_create_appends_then_reuses() {
    let mut p = two_threads();
    assert_eq!(sys_mutex_create(&mut p, false), 0);
    assert_eq!(sys_mutex_create(&mut p, true), 1);
    assert_eq!(mutex_state(&p, 0), (MutexKind::Spin, false, vec![]));
    assert_eq!(mutex_state(&p, 1), (MutexKind::Blocking, false, vec![]));
    assert_eq!(p.mutex_available, vec![1, 1]);
    assert_eq!(p.mutex_allocation, vec![vec![0, 0], vec![0, 0]]);
    assert_eq!(p.mutex_need, vec![vec![0, 0], vec![0, 0]]);
    p.mutex_list[0] = None;
    p.mutex_available[0] = 0;
    assert_eq!(sys_mutex_create(&mut p, true), 0);
    assert_eq!(mutex_state(&p, 0), (MutexKind::Blocking, false, vec![]));
    assert_eq!(p.mutex_available, vec![1, 1]);
    assert_eq!(p.mutex_need, vec![vec![0, 0], vec![0, 0]]);
}

#[test]
fn mutex_lock_unlock_bookkeeping() {
    let mut p = two_threads();
    sys_mutex_create(&mut p, true);
    assert_eq!(sys_mutex_lock(&mut p, 1, 0, 101), SyscallStep::Return(0));
    assert_eq!(mutex_state(&p, 0), (MutexKind::Blocking, true, vec![]));
    assert_eq!(p.mutex_available, vec![0]);
    assert_eq!(p.mutex_allocation[1], vec![1]);
    assert_eq!(p.mutex_need[1], vec![0]);
    assert_eq!(sys_mutex_unlock(&mut p, 1, 0), (0, None));
    assert_eq!(mutex_state(&p, 0), (MutexKind::Blocking, false, vec![]));
    assert_eq!(p.mutex_available, vec![1]);
    assert_eq!(p.mutex_allocation[1], vec![0]);
}

#[test]
fn blocking_mutex_is_handed_over() {
    let mut p = two_threads();
    sys_mutex_create(&mut p, true);
    assert_eq!(sys_mutex_lock(&mut p, 0, 0, 100), SyscallStep::Return(0));
    assert_eq!(sys_mutex_lock(&mut p, 1, 0, 101), SyscallStep::Block);
    assert_eq!(mutex_state(&p, 0), (MutexKind::Blocking, true, vec![101]));
    assert_eq!(p.mutex_need[1], vec![1]);
    assert_eq!(sys_mutex_unlock(&mut p, 0, 0), (0, Some(101)));
    assert_eq!(mutex_state(&p, 0), (MutexKind::Blocking, true, vec![]));
    assert_eq!(complete_mutex_lock(&mut p, 1, 0), 0);
    assert_eq!(p.mutex_available, vec![0]);
    assert_eq!(p.mutex_allocation, vec![vec![0], vec![1]]);
    assert_eq!(p.mutex_need[1], vec![0]);
}

#[test]
fn spinning_mutex_asks_to_yield() {
    let mut p = two_threads();
    sys_mutex_create(&mut p, false);
    assert_eq!(sys_mutex_lock(&mut p, 0, 0, 100), SyscallStep::Return(0));
    assert_eq!(sys_mutex_lock(&mut p, 1, 0, 101), SyscallStep::Yield);
    assert_eq!(retry_mutex_lock(&mut p, 1, 0, 101), SyscallStep::Yield);
    assert_eq!(sys_mutex_unlock(&mut p, 0, 0), (0, None));
    assert_eq!(retry_mutex_lock(&mut p, 1, 0, 101), SyscallStep::Return(0));
    assert_eq!(p.mutex_allocation, vec![vec![0], vec![1]]);
    assert_eq!(p.mutex_need[1], vec![0]);
}

fn crossed_locks(detect: usize) -> ProcessSync {
    let mut p = two_threads();
    assert_eq!(sys_enable_deadlock_detect(&mut p, detect), 0);
    sys_mutex_create(&mut p, true);
    sys_mutex_create(&mut p, true);
    assert_eq!(sys_mutex_lock(&mut p, 0, 0, 100), SyscallStep::Return(0));
    assert_eq!(sys_mutex_lock(&mut p, 1, 1, 101), SyscallStep::Return(0));
    // Thread 0 asks for mutex 1: thread 1 can still finish first.
    assert_eq!(sys_mutex_lock(&mut p, 0, 1, 100), SyscallStep::Block);
    p
}

#[test]
fn mutex_lock_refuses_a_deadlock_when_detection_is_on() {
    let mut p = crossed_locks(1);
    // Thread 1 asks for mutex 0: neither could finish.
    let before_need = p.mutex_need.clone();
    let before_alloc = p.mutex_allocation.clone();
    assert_eq!(sys_mutex_lock(&mut p, 1, 0, 101), SyscallStep::Return(DEADLOCK));
    assert_eq!(DEADLOCK, -0xDEAD);
    assert_eq!(p.mutex_need, before_need);
    assert_eq!(p.mutex_allocation, before_alloc);
    assert_eq!(p.mutex_available, vec![0, 0]);
    assert_eq!(mutex_state(&p, 0), (MutexKind::Blocking, true, vec![]));
}

#[test]
fn mutex_lock_goes_ahead_when_detection_is_off() {
    let mut p = crossed_locks(0);
    assert_eq!(sys_mutex_lock(&mut p, 1, 0, 101), SyscallStep::Block);
    assert_eq!(p.mutex_need, vec![vec![0, 1], vec![1, 0]]);
    assert_eq!(mutex_state(&p, 0), (MutexKind::Blocking, true, vec![101]));
}

#[test]
fn semaphore_create_up_down() {
    let mut p = two_threads();
    assert_eq!(sys_semaphore_create(&mut p, 1), 0);
    assert_eq!(sys_semaphore_create(&mut p, 0), 1);
    assert_eq!(p.semaphore_available, vec![1, 0]);
    assert_eq!(p.semaphore_allocation, vec![vec![0, 0], vec![0, 0]]);
    assert_eq!(sys_semaphore_down(&mut p, 0, 0, 100), SyscallStep::Return(0));
    assert_eq!(p.semaphore_available, vec![0, 0]);
    assert_eq!(p.semaphore_allocation[0], vec![1, 0]);
    assert_eq!(p.semaphore_need[0], vec![0, 0]);
    assert_eq!(sys_semaphore_up(&mut p, 0, 0), (0, None));
    assert_eq!(p.semaphore_available, vec![1, 0]);
    assert_eq!(p.semaphore_allocation[0], vec![0, 0]);
}

#[test]
fn semaphore_signalled_by_a_non_holder() {
    let mut p = two_threads();
    sys_enable_deadlock_detect(&mut p, 1);
    sys_semaphore_create(&mut p, 0);
    // Thread 1 (task 101) waits for a signal that thread 0 will give: with
    // nothing free and nothing held, thread 1 cannot finish, so it is refused.
    assert_eq!(sys_semaphore_down(&mut p, 1, 0, 101), SyscallStep::Return(DEADLOCK));
    assert_eq!(p.semaphore_need[1], vec![0]);
    // Thread 0 signals; it held nothing, so its allocation goes negative.
    assert_eq!(sys_semaphore_up(&mut p, 0, 0), (0, None));
    assert_eq!(p.semaphore_allocation[0], vec![-1]);
    assert_eq!(p.semaphore_available, vec![1]);
    // The check lets thread 0 finish first, which takes the unit back out
    // of the work vector: thread 1 is refused again.
    assert_eq!(sys_semaphore_down(&mut p, 1, 0, 101), SyscallStep::Return(DEADLOCK));
    assert_eq!(p.semaphore_available, vec![1]);
    // With detection off, the down goes ahead.
    sys_enable_deadlock_detect(&mut p, 0);
    assert_eq!(sys_semaphore_down(&mut p, 1, 0, 101), SyscallStep::Return(0));
    assert_eq!(p.semaphore_available, vec![0]);
    assert_eq!(p.semaphore_allocation[1], vec![1]);
}

#[test]
fn semaphore_down_without_detection_blocks() {
    let mut p = two_threads();
    sys_semaphore_create(&mut p, 0);
    assert_eq!(sys_semaphore_down(&mut p, 1, 0, 101), SyscallStep::Block);
    assert_eq!(p.semaphore_need[1], vec![1]);
}

#[test]
fn semaphore_down_that_blocks_records_the_unit_later() {
    let mut p = two_threads();
    sys_enable_deadlock_detect(&mut p, 1);
    sys_semaphore_create(&mut p, 1);
    assert_eq!(sys_semaphore_down(&mut p, 0, 0, 100), SyscallStep::Return(0));
    assert_eq!(sys_semaphore_down(&mut p, 1, 0, 101), SyscallStep::Block);
    assert_eq!(p.semaphore_need[1], vec![1]);
    assert_eq!(p.semaphore_list[0].as_ref().unwrap().inner.count, -1);
    assert_eq!(sys_semaphore_up(&mut p, 0, 0), (0, Some(101)));
    assert_eq!(complete_semaphore_down(&mut p, 1, 0), 0);
    assert_eq!(p.semaphore_allocation[1], vec![1]);
    assert_eq!(p.semaphore_need[1], vec![0]);
    assert_eq!(p.semaphore_available, vec![0]);
}

#[test]
fn condvar_create_signal_and_wait() {
    let mut p = two_threads();
    sys_mutex_create(&mut p, true);
    assert_eq!(sys_condvar_create(&mut p), 0);
    assert_eq!(sys_condvar_create(&mut p), 1);
    p.condvar_list[0] = None;
    assert_eq!(sys_condvar_create(&mut p), 0);
    // Nobody waits: nobody is woken.
    assert_eq!(sys_condvar_signal(&mut p, 0), (0, None));
    // Thread 0 holds the mutex and waits on condvar 0.
    assert_eq!(sys_mutex_lock(&mut p, 0, 0, 100), SyscallStep::Return(0));
    assert_eq!(sys_condvar_wait(&mut p, 0, 0, 100), (SyscallStep::Block, None));
    assert_eq!(mutex_state(&p, 0), (MutexKind::Blocking, false, vec![]));
    assert_eq!(
        p.condvar_list[0].as_ref().unwrap().wait_queue.iter().copied().collect::<Vec<_>>(),
        vec![100]
    );
    // Thread 1 signals: task 100 wakes and takes the mutex again.
    assert_eq!(sys_condvar_signal(&mut p, 0), (0, Some(100)));
    assert!(p.condvar_list[0].as_ref().unwrap().wait_queue.is_empty());
    assert_eq!(complete_condvar_wait(&mut p, 0, 100), SyscallStep::Return(0));
    assert_eq!(mutex_state(&p, 0), (MutexKind::Blocking, true, vec![]));
}

#[test]
fn condvar_wait_hands_the_mutex_to_a_waiter() {
    let mut p = two_threads();
    sys_mutex_create(&mut p, true);
    sys_condvar_create(&mut p);
    assert_eq!(sys_mutex_lock(&mut p, 0, 0, 100), SyscallStep::Return(0));
    assert_eq!(sys_mutex_lock(&mut p, 1, 0, 101), SyscallStep::Block);
    assert_eq!(sys_condvar_wait(&mut p, 0, 0, 100), (SyscallStep::Block, Some(101)));
    assert_eq!(mutex_state(&p, 0), (MutexKind::Blocking, true, vec![]));
    assert_eq!(sys_condvar_signal(&mut p, 0), (0, Some(100)));
    assert_eq!(complete_condvar_wait(&mut p, 0, 100), SyscallStep::Block);
    assert_eq!(mutex_state(&p, 0), (MutexKind::Blocking, true, vec![100]));
}

#[test]
fn deadlock_detect_flag_and_sleep() {
    let mut p = two_threads();
    assert_eq!(p.is_enable, 0);
    assert_eq!(sys_enable_deadlock_detect(&mut p, 1), 0);
    assert_eq!(p.is_enable, 1);
    assert_eq!(sys_sleep(1000, 250), (0, 1250));
}
