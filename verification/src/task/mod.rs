//! Tasks: control blocks, the ready queue, process bookkeeping and the
//! banker's check.
use crate::task::banker::{
    allocation_nonnegative, banker_check, greedy_completes, is_safe_state,
    lemma_check_decides_safety,
};
use crate::task::process::{view_wf, ProcessSync, ProcessSyncView};
use vstd::prelude::*;

pub mod banker;
pub mod manager;
pub mod process;
pub mod task;
pub mod trap;

verus! {

/// `check_system_state`'s answer: the request must wait for a unit.
pub const STATE_WAIT: usize = 0;

/// `check_system_state`'s answer: the state is safe and the unit is free.
pub const STATE_SAFE: usize = 1;

/// `check_system_state`'s answer: granting the request could deadlock.
pub const STATE_DEADLOCK: usize = 2;

/// The answer of the safety check for resource kind `t` (0 for mutexes,
/// any other value for semaphores) on a request for `num` units of resource
/// `res`, the request already counted in the need matrix: deadlock when the
/// banker's check does not let every thread finish; otherwise wait when
/// fewer than `num` units of `res` are free; otherwise safe.
pub open spec fn system_state_spec(v: ProcessSyncView, t: usize, res: int, num: int) -> usize {
    let (available, need, allocation) = if t == 0 {
        (v.mutex_available, v.mutex_need, v.mutex_allocation)
    } else {
        (v.semaphore_available, v.semaphore_need, v.semaphore_allocation)
    };
    if !greedy_completes(available, need, allocation) {
        STATE_DEADLOCK
    } else if available[res] < num {
        STATE_WAIT
    } else {
        STATE_SAFE
    }
}

/// Check whether the system is in a safe state for a request for `num`
/// units of resource `res`, of mutexes (`t == 0`) or of semaphores: 0 when
/// the request must wait, 1 when it is safe, 2 when it could deadlock.
pub fn check_system_state(process: &ProcessSync, t: usize, res: usize, num: isize) -> (state: usize)
    requires
        process.wf(),
        t == 0 ==> res < process.mutex_available@.len(),
        t != 0 ==> res < process.semaphore_available@.len(),
    ensures
        state == system_state_spec(process@, t, res as int, num as int),
{
    let (safe, free) = if t == 0 {
        (
            banker_check(&process.mutex_available, &process.mutex_need, &process.mutex_allocation),
            process.mutex_available[res],
        )
    } else {
        (
            banker_check(
                &process.semaphore_available,
                &process.semaphore_need,
                &process.semaphore_allocation,
            ),
            process.semaphore_available[res],
        )
    };
    if !safe {
        STATE_DEADLOCK
    } else if free < num {
        STATE_WAIT
    } else {
        STATE_SAFE
    }
}

/// What the three answers mean, for mutexes: with no negative allocation,
/// deadlock exactly when no order lets every thread finish; otherwise wait
/// exactly when fewer than `num` units of `res` are free, and safe when
/// they are. The answer is always one of the three.
pub proof fn lemma_system_state_meaning(v: ProcessSyncView, res: int, num: int)
    requires
        view_wf(v),
        allocation_nonnegative(v.mutex_allocation),
    ensures
        system_state_spec(v, 0, res, num) == STATE_DEADLOCK <==> !is_safe_state(
            v.mutex_available,
            v.mutex_need,
            v.mutex_allocation,
        ),
        is_safe_state(v.mutex_available, v.mutex_need, v.mutex_allocation) ==> (system_state_spec(
            v,
            0,
            res,
            num,
        ) == STATE_WAIT <==> v.mutex_available[res] < num) && (system_state_spec(v, 0, res, num)
            == STATE_SAFE <==> v.mutex_available[res] >= num),
        system_state_spec(v, 0, res, num) == 0 || system_state_spec(v, 0, res, num) == 1
            || system_state_spec(v, 0, res, num) == 2,
{
    lemma_check_decides_safety(v.mutex_available, v.mutex_need, v.mutex_allocation);
}

/// The same for semaphores (any `t` other than 0).
pub proof fn lemma_system_state_meaning_semaphores(v: ProcessSyncView, t: usize, res: int, num: int)
    requires
        view_wf(v),
        t != 0,
        allocation_nonnegative(v.semaphore_allocation),
    ensures
        system_state_spec(v, t, res, num) == STATE_DEADLOCK <==> !is_safe_state(
            v.semaphore_available,
            v.semaphore_need,
            v.semaphore_allocation,
        ),
        is_safe_state(v.semaphore_available, v.semaphore_need, v.semaphore_allocation) ==> (
        system_state_spec(v, t, res, num) == STATE_WAIT <==> v.semaphore_available[res] < num)
            && (system_state_spec(v, t, res, num) == STATE_SAFE <==> v.semaphore_available[res]
            >= num),
{
    lemma_check_decides_safety(v.semaphore_available, v.semaphore_need, v.semaphore_allocation);
}

} // verus!
