use task_sync::task::banker::banker_check;
use task_sync::sync::mutex::{Mutex, MutexKind};
use task_sync::task::{check_system_state, STATE_DEADLOCK, STATE_SAFE, STATE_WAIT};
use task_sync::task::process::ProcessSync;

#[test]
fn safe_state_with_an_order() {
    // One free unit; thread 1 can finish first and free two more.
    let available = vec![1isize];
    let need = vec![vec![3isize], vec![1]];
    let allocation = vec![vec![0isize], vec![2]];
    assert!(banker_check(&available, &need, &allocation));
}

#[test]
fn unsafe_state_without_an_order() {
    let available = vec![0isize, 0];
    let need = vec![vec![0isize, 1], vec![1, 0]];
    let allocation = vec![vec![1isize, 0], vec![0, 1]];
    assert!(!banker_check(&available, &need, &allocation));
}

#[test]
fn empty_process_is_safe() {
    let available: Vec<isize> = Vec::new();
    let need: Vec<Vec<isize>> = Vec::new();
    let allocation: Vec<Vec<isize>> = Vec::new();
    assert!(banker_check(&available, &need, &allocation));
}

#[test]
fn negative_allocation_follows_the_lowest_first_order() {
    // Thread 0 finishes first and takes a unit away; thread 1 then cannot
    // finish, although the order (1, 0) would have let both finish.
    let available = vec![1isize];
    let need = vec![vec![0isize], vec![1]];
    let allocation = vec![vec![-1isize], vec![0]];
    assert!(!banker_check(&available, &need, &allocation));
}

#[test]
fn check_system_state_answers_wait_safe_or_deadlock() {
    let mut p = ProcessSync::new(10);
    // One free mutex, and a semaphore with no unit.
    p.mutex_list.push(Some(Mutex::new(MutexKind::Spin)));
    p.mutex_available.push(1);
    p.mutex_allocation[0].push(0);
    p.mutex_need[0].push(0);
    p.semaphore_list.push(None);
    p.semaphore_available.push(0);
    p.semaphore_allocation[0].push(0);
    p.semaphore_need[0].push(0);
    assert!(p.is_wf());
    assert_eq!(check_system_state(&p, 0, 0, 1), STATE_SAFE);
    // Nothing is needed, but the requested unit is not free: wait.
    assert_eq!(check_system_state(&p, 1, 0, 1), STATE_WAIT);
    // The main thread needs a unit that no one can give back: deadlock.
    p.semaphore_need[0][0] = 1;
    assert_eq!(check_system_state(&p, 1, 0, 1), STATE_DEADLOCK);
    assert_eq!((STATE_WAIT, STATE_SAFE, STATE_DEADLOCK), (0, 1, 2));
}

#[test]
fn more_available_stays_safe() {
    let need = vec![vec![2isize], vec![1]];
    let allocation = vec![vec![1isize], vec![1]];
    assert!(!banker_check(&vec![0isize], &need, &allocation));
    assert!(banker_check(&vec![1isize], &need, &allocation));
    assert!(banker_check(&vec![5isize], &need, &allocation));
}
