use task_sync::sync::mutex::{Mutex, MutexKind};
use task_sync::sync::semaphore::Semaphore;
use task_sync::syscall::thread::{sys_gettid, sys_thread_create, sys_waittid};
use task_sync::task::trap::{REG_A0, REG_SP};

fn create(p: &mut ProcessSync, tid: usize, task: usize) -> isize {
    sys_thread_create(p, tid, task, 0x1000, 0, 0x8000, 0x9000, 7, 0x100).0
}
use task_sync::task::process::{ProcessSync, ThreadSlot};

#[test]
fn new_process_has_its_main_thread() {
    let p = ProcessSync::new(42);
    assert_eq!(p.tasks, vec![Some(ThreadSlot { task: 42, exit_code: None })]);
    assert_eq!(p.mutex_need.len(), 1);
    assert_eq!(p.semaphore_allocation.len(), 1);
}

#[test]
fn thread_create_grows_the_tables() {
    let mut p = ProcessSync::new(42);
    assert_eq!(create(&mut p, 3, 43), 3);
    assert_eq!(p.tasks.len(), 4);
    assert_eq!(p.tasks[1], None);
    assert_eq!(p.tasks[3], Some(ThreadSlot { task: 43, exit_code: None }));
    assert_eq!(p.mutex_allocation.len(), 2);
    assert_eq!(p.semaphore_need.len(), 2);
    assert_eq!(create(&mut p, 1, 44), 1);
    assert_eq!(p.tasks.len(), 4);
    assert_eq!(p.tasks[1], Some(ThreadSlot { task: 44, exit_code: None }));
}

#[test]
fn waittid_cases() {
    let mut p = ProcessSync::new(42);
    create(&mut p, 1, 43);
    assert_eq!(sys_waittid(&mut p, 1, 1), -1);
    assert_eq!(sys_waittid(&mut p, 0, 1), -2);
    assert!(!p.record_thread_exit(1, 7));
    assert_eq!(sys_waittid(&mut p, 0, 1), 7);
    assert_eq!(p.tasks[1], None);
    assert_eq!(sys_waittid(&mut p, 0, 1), -1);
    // A thread id past the end of the table does not exist either.
    assert_eq!(sys_waittid(&mut p, 0, 9), -1);
}

#[test]
fn exit_clears_rows_and_main_exit_reaps() {
    let mut p = ProcessSync::new(42);
    create(&mut p, 1, 43);
    p.mutex_list.push(None);
    p.mutex_available.push(0);
    p.mutex_allocation = vec![vec![1], vec![2]];
    p.mutex_need = vec![vec![3], vec![4]];
    p.semaphore_list.push(None);
    p.semaphore_available.push(0);
    p.semaphore_allocation = vec![vec![5], vec![6]];
    p.semaphore_need = vec![vec![7], vec![8]];
    assert!(!p.record_thread_exit(1, 0));
    assert_eq!(p.mutex_allocation, vec![vec![1], vec![0]]);
    assert_eq!(p.mutex_need, vec![vec![3], vec![0]]);
    assert_eq!(p.semaphore_allocation, vec![vec![5], vec![0]]);
    assert_eq!(p.semaphore_need, vec![vec![7], vec![8]]);
    assert!(!p.is_zombie);
    assert!(p.record_thread_exit(0, 3));
    assert!(p.is_zombie);
    assert_eq!(p.exit_code, 3);
    assert_eq!(p.tasks[0], Some(ThreadSlot { task: 42, exit_code: Some(3) }));
    assert_eq!(p.reap_all_threads(), vec![42, 43]);
    assert!(p.tasks.is_empty());
}

#[test]
fn gettid_returns_the_id() {
    assert_eq!(sys_gettid(5), 5);
}

#[test]
fn exited_process_hands_its_children_to_init() {
    let mut init = ProcessSync::new(1);
    init.children.push(2);
    let mut p = ProcessSync::new(42);
    p.children.push(5);
    p.children.push(6);
    p.hand_children_to(&mut init);
    assert_eq!(init.children, vec![2, 5, 6]);
    assert!(p.children.is_empty());
}

#[test]
fn is_wf_spots_a_misshapen_process() {
    let mut p = ProcessSync::new(42);
    assert!(p.is_wf());
    p.mutex_available.push(1);
    assert!(!p.is_wf());
    p.mutex_list.push(None);
    assert!(!p.is_wf());
    p.mutex_allocation[0].push(0);
    p.mutex_need[0].push(0);
    assert!(p.is_wf());
}

#[test]
fn new_thread_starts_at_its_entry_with_its_argument() {
    let mut p = ProcessSync::new(42);
    let (tid, cx) = sys_thread_create(&mut p, 1, 43, 0x1234, 77, 0xf000, 0xa000, 0x8000_0001, 0x200);
    assert_eq!(tid, 1);
    assert_eq!(cx.sepc, 0x1234);
    assert_eq!(cx.x[REG_SP], 0xf000);
    assert_eq!(cx.x[REG_A0], 77);
    assert_eq!(cx.kernel_sp, 0xa000);
    assert_eq!(cx.kernel_satp, 0x8000_0001);
    assert_eq!(cx.trap_handler, 0x200);
    for (i, r) in cx.x.iter().enumerate() {
        if i != REG_SP && i != REG_A0 {
            assert_eq!(*r, 0);
        }
    }
    // The new thread's id is what gettid answers in it.
    assert_eq!(sys_gettid(1), tid);
}

#[test]
fn free_tid_is_the_lowest_free_slot() {
    let mut p = ProcessSync::new(42);
    assert_eq!(p.free_tid(), 1);
    create(&mut p, 1, 43);
    create(&mut p, 2, 44);
    assert_eq!(p.free_tid(), 3);
    assert!(!p.record_thread_exit(1, 0));
    assert_eq!(sys_waittid(&mut p, 0, 1), 0);
    assert_eq!(p.free_tid(), 1);
}

#[test]
fn is_wf_spots_an_inconsistent_mutex_or_semaphore() {
    let mut p = ProcessSync::new(42);
    let mut m = Mutex::new(MutexKind::Blocking);
    m.wait_queue.push_back(5);
    p.mutex_list.push(Some(m));
    p.mutex_available.push(1);
    p.mutex_allocation[0].push(0);
    p.mutex_need[0].push(0);
    assert!(!p.is_wf());
    p.mutex_list[0].as_mut().unwrap().locked = true;
    assert!(p.is_wf());
    let mut s = Semaphore::new(1);
    s.inner.wait_queue.push_back(6);
    p.semaphore_list.push(Some(s));
    p.semaphore_available.push(1);
    p.semaphore_allocation[0].push(0);
    p.semaphore_need[0].push(0);
    assert!(!p.is_wf());
    p.semaphore_list[0].as_mut().unwrap().inner.count = -1;
    assert!(p.is_wf());
}
