//! Mutex, semaphore, condition-variable and sleep system calls.
use crate::sync::condvar::{after_signal, Condvar};
use crate::sync::mutex::{after_lock, after_unlock, LockOutcome, Mutex, MutexKind};
use crate::sync::semaphore::{after_down, after_up, Semaphore, TaskId};
use crate::syscall::{SyscallStep, DEADLOCK};
use crate::task::banker::greedy_completes;
use crate::task::process::{
    bump, bump_counter, bump_fits, bumped, column_pushed, counter_bumped, counter_fits,
    find_free_slot, first_free, lemma_first_free_same_slots, push_column, view_wf, ProcessSync,
    ProcessSyncView,
};
use crate::task::{check_system_state, STATE_DEADLOCK};
use vstd::prelude::*;

verus! {

/// The kind of mutex that a create asks for.
pub open spec fn mutex_kind(blocking: bool) -> MutexKind {
    if blocking {
        MutexKind::Blocking
    } else {
        MutexKind::Spin
    }
}

/// A new, free mutex takes the first free id, or a new one at the end of
/// the table; its free count is one, and a new id gets a zero column in
/// both matrices. Returns the state and the id.
pub open spec fn mutex_create_spec(v: ProcessSyncView, blocking: bool) -> (ProcessSyncView, int) {
    let id = first_free(v.mutex_list, 0);
    let m = (mutex_kind(blocking), false, Seq::<TaskId>::empty());
    if id < v.mutex_list.len() {
        (
            ProcessSyncView {
                mutex_list: v.mutex_list.update(id, Some(m)),
                mutex_available: v.mutex_available.update(id, 1isize),
                ..v
            },
            id,
        )
    } else {
        (
            ProcessSyncView {
                mutex_list: v.mutex_list.push(Some(m)),
                mutex_available: v.mutex_available.push(1isize),
                mutex_allocation: column_pushed(v.mutex_allocation, 0isize),
                mutex_need: column_pushed(v.mutex_need, 0isize),
                ..v
            },
            id,
        )
    }
}

/// Thread `tid` asks for mutex `id`: its need for it grows by one.
pub open spec fn mutex_requested(v: ProcessSyncView, tid: int, id: int) -> ProcessSyncView {
    ProcessSyncView { mutex_need: bumped(v.mutex_need, tid, id, 1), ..v }
}

/// With deadlock detection off, every lock request goes ahead; with it on,
/// only one that, counted, still lets the banker's check finish every thread.
pub open spec fn mutex_lock_proceeds(v: ProcessSyncView, tid: int, id: int) -> bool {
    let req = mutex_requested(v, tid, id);
    v.is_enable == 0 || greedy_completes(req.mutex_available, req.mutex_need, req.mutex_allocation)
}

/// Thread `tid` holds mutex `id` now: a unit moves from free to its
/// allocation, and its need shrinks by one.
pub open spec fn mutex_acquired(v: ProcessSyncView, tid: int, id: int) -> ProcessSyncView {
    ProcessSyncView {
        mutex_available: counter_bumped(v.mutex_available, id, -1),
        mutex_allocation: bumped(v.mutex_allocation, tid, id, 1),
        mutex_need: bumped(v.mutex_need, tid, id, -1),
        ..v
    }
}

/// Task `current`, running thread `tid`, tries to lock mutex `id`: taken at
/// once (and recorded as `tid`'s, returning 0), queued to block, or sent
/// off to yield and try again.
pub open spec fn mutex_attempt(v: ProcessSyncView, tid: int, id: int, current: TaskId) -> (
    ProcessSyncView,
    SyscallStep,
) {
    let (m, outcome) = after_lock(v.mutex_list[id]->Some_0, current);
    let tried = ProcessSyncView { mutex_list: v.mutex_list.update(id, Some(m)), ..v };
    match outcome {
        LockOutcome::Acquired => (mutex_acquired(tried, tid, id), SyscallStep::Return(0)),
        LockOutcome::Block => (tried, SyscallStep::Block),
        LockOutcome::Yield => (tried, SyscallStep::Yield),
    }
}

/// The mutex lock syscall: the request is counted, then refused with
/// nothing changed when detection is on and it could deadlock the process;
/// otherwise the lock is tried.
pub open spec fn mutex_lock_spec(v: ProcessSyncView, tid: int, id: int, current: TaskId) -> (
    ProcessSyncView,
    SyscallStep,
) {
    if !mutex_lock_proceeds(v, tid, id) {
        (v, SyscallStep::Return(DEADLOCK))
    } else {
        mutex_attempt(mutex_requested(v, tid, id), tid, id, current)
    }
}

/// The mutex unlock syscall by thread `tid`: the mutex is unlocked (handed
/// to its oldest waiter, returned to be woken, if it has one), and a unit
/// moves from `tid`'s allocation back to free.
pub open spec fn mutex_unlock_spec(v: ProcessSyncView, tid: int, id: int) -> (
    ProcessSyncView,
    Option<TaskId>,
) {
    let (m, woken) = after_unlock(v.mutex_list[id]->Some_0);
    (
        ProcessSyncView {
            mutex_list: v.mutex_list.update(id, Some(m)),
            mutex_available: counter_bumped(v.mutex_available, id, 1),
            mutex_allocation: bumped(v.mutex_allocation, tid, id, -1),
            ..v
        },
        woken,
    )
}

/// Taking the unit at once fits in the counters.
pub open spec fn acquire_fits(v: ProcessSyncView, tid: int, id: int) -> bool {
    &&& counter_fits(v.mutex_available, id, -1)
    &&& bump_fits(v.mutex_allocation, tid, id, 1)
}

/// A new semaphore with `res_count` units takes the first free id, or a new
/// one at the end of the table; its free count is `res_count`, and a new id
/// gets a zero column in both matrices. Returns the state and the id.
pub open spec fn semaphore_create_spec(v: ProcessSyncView, res_count: usize) -> (
    ProcessSyncView,
    int,
) {
    let id = first_free(v.semaphore_list, 0);
    let sem = (res_count as isize as int, Seq::<TaskId>::empty());
    if id < v.semaphore_list.len() {
        (
            ProcessSyncView {
                semaphore_list: v.semaphore_list.update(id, Some(sem)),
                semaphore_available: v.semaphore_available.update(id, res_count as isize),
                ..v
            },
            id,
        )
    } else {
        (
            ProcessSyncView {
                semaphore_list: v.semaphore_list.push(Some(sem)),
                semaphore_available: v.semaphore_available.push(res_count as isize),
                semaphore_allocation: column_pushed(v.semaphore_allocation, 0isize),
                semaphore_need: column_pushed(v.semaphore_need, 0isize),
                ..v
            },
            id,
        )
    }
}

/// An up by thread `tid` on semaphore `id`: the semaphore gives a unit back
/// (and may wake its oldest waiter), the free count grows by one and `tid`'s
/// allocation shrinks by one. Returns the state and the task to wake.
pub open spec fn semaphore_up_spec(v: ProcessSyncView, tid: int, id: int) -> (
    ProcessSyncView,
    Option<TaskId>,
) {
    let (sem, woken) = after_up(v.semaphore_list[id]->Some_0);
    (
        ProcessSyncView {
            semaphore_list: v.semaphore_list.update(id, Some(sem)),
            semaphore_available: counter_bumped(v.semaphore_available, id, 1),
            semaphore_allocation: bumped(v.semaphore_allocation, tid, id, -1),
            ..v
        },
        woken,
    )
}

/// Thread `tid` asks for a unit of semaphore `id`: its need grows by one.
pub open spec fn semaphore_requested(v: ProcessSyncView, tid: int, id: int) -> ProcessSyncView {
    ProcessSyncView { semaphore_need: bumped(v.semaphore_need, tid, id, 1), ..v }
}

/// Thread `tid` holds a unit of semaphore `id` now: the unit moves from
/// free to its allocation, and its need shrinks by one.
pub open spec fn semaphore_acquired(v: ProcessSyncView, tid: int, id: int) -> ProcessSyncView {
    ProcessSyncView {
        semaphore_available: counter_bumped(v.semaphore_available, id, -1),
        semaphore_allocation: bumped(v.semaphore_allocation, tid, id, 1),
        semaphore_need: bumped(v.semaphore_need, tid, id, -1),
        ..v
    }
}

/// The request passes the banker's check.
pub open spec fn semaphore_request_safe(v: ProcessSyncView, tid: int, id: int) -> bool {
    let req = semaphore_requested(v, tid, id);
    greedy_completes(req.semaphore_available, req.semaphore_need, req.semaphore_allocation)
}

/// With deadlock detection off, every down goes ahead; with it on, only one
/// whose request passes the banker's check.
pub open spec fn semaphore_down_proceeds(v: ProcessSyncView, tid: int, id: int) -> bool {
    v.is_enable == 0 || semaphore_request_safe(v, tid, id)
}

/// A down by thread `tid`, run by task `current`, on semaphore `id`: refused
/// with nothing changed when detection is on and the request fails the
/// banker's check;
/// otherwise the semaphore is downed, and the unit is recorded as `tid`'s at
/// once when `current` does not block, or after it is woken when it does.
pub open spec fn semaphore_down_spec(v: ProcessSyncView, tid: int, id: int, current: TaskId) -> (
    ProcessSyncView,
    SyscallStep,
) {
    let req = semaphore_requested(v, tid, id);
    if !semaphore_down_proceeds(v, tid, id) {
        (v, SyscallStep::Return(DEADLOCK))
    } else {
        let (sem, blocked) = after_down(v.semaphore_list[id]->Some_0, current);
        let downed = ProcessSyncView {
            semaphore_list: req.semaphore_list.update(id, Some(sem)),
            ..req
        };
        if blocked {
            (downed, SyscallStep::Block)
        } else {
            (semaphore_acquired(downed, tid, id), SyscallStep::Return(0))
        }
    }
}

/// A new condition variable, with nobody waiting, takes the first free id,
/// or a new one at the end of the table. Returns the state and the id.
pub open spec fn condvar_create_spec(v: ProcessSyncView) -> (ProcessSyncView, int) {
    let id = first_free(v.condvar_list, 0);
    if id < v.condvar_list.len() {
        (
            ProcessSyncView {
                condvar_list: v.condvar_list.update(id, Some(Seq::<TaskId>::empty())),
                ..v
            },
            id,
        )
    } else {
        (ProcessSyncView { condvar_list: v.condvar_list.push(Some(Seq::<TaskId>::empty())), ..v }, id)
    }
}

/// A signal on condition variable `id`: its oldest waiter, if any, leaves
/// the queue and is returned to be woken.
pub open spec fn condvar_signal_spec(v: ProcessSyncView, id: int) -> (ProcessSyncView, Option<TaskId>) {
    let (q, woken) = after_signal(v.condvar_list[id]->Some_0);
    (ProcessSyncView { condvar_list: v.condvar_list.update(id, Some(q)), ..v }, woken)
}

/// A wait by task `current` on condition variable `cid` with mutex `mid`:
/// the mutex is unlocked (handed to its oldest waiter, returned to be
/// woken, if it has one), and `current` joins the end of the condition
/// variable's queue.
pub open spec fn condvar_wait_spec(v: ProcessSyncView, cid: int, mid: int, current: TaskId) -> (
    ProcessSyncView,
    Option<TaskId>,
) {
    let (m, woken) = after_unlock(v.mutex_list[mid]->Some_0);
    (
        ProcessSyncView {
            mutex_list: v.mutex_list.update(mid, Some(m)),
            condvar_list: v.condvar_list.update(cid, Some(v.condvar_list[cid]->Some_0.push(current))),
            ..v
        },
        woken,
    )
}

/// After the signal, task `current` locks mutex `mid` again: taken at once
/// (the wait returns 0), queued to block (the wait returns 0 once it is
/// handed the mutex), or sent off to yield and try again.
pub open spec fn condvar_relock_spec(v: ProcessSyncView, mid: int, current: TaskId) -> (
    ProcessSyncView,
    SyscallStep,
) {
    let (m, outcome) = after_lock(v.mutex_list[mid]->Some_0, current);
    (
        ProcessSyncView { mutex_list: v.mutex_list.update(mid, Some(m)), ..v },
        match outcome {
            LockOutcome::Acquired => SyscallStep::Return(0),
            LockOutcome::Block => SyscallStep::Block,
            LockOutcome::Yield => SyscallStep::Yield,
        },
    )
}

/// Mutex create syscall: add a free mutex (a blocking one when `blocking`,
/// else a spinning one) to the process and return its id.
pub fn sys_mutex_create(process: &mut ProcessSync, blocking: bool) -> (id: isize)
    requires
        old(process).wf(),
    ensures
        final(process).wf(),
        final(process)@ == mutex_create_spec(old(process)@, blocking).0,
        id == mutex_create_spec(old(process)@, blocking).1 as isize,
{
    let kind = if !blocking {
        MutexKind::Spin
    } else {
        MutexKind::Blocking
    };
    let id = find_free_slot(&process.mutex_list);
    proof {
        lemma_first_free_same_slots(old(process).mutex_list@, old(process)@.mutex_list, 0);
    }
    if id < process.mutex_list.len() {
        process.mutex_list.set(id, Some(Mutex::new(kind)));
        process.mutex_available.set(id, 1);
        assert(process@ =~= mutex_create_spec(old(process)@, blocking).0);
        #[verifier::truncate]
        (id as isize)
    } else {
        process.mutex_list.push(Some(Mutex::new(kind)));
        process.mutex_available.push(1);
        push_column(&mut process.mutex_allocation, 0);
        push_column(&mut process.mutex_need, 0);
        assert(process@ =~= mutex_create_spec(old(process)@, blocking).0);
        #[verifier::truncate]
        ((process.mutex_list.len() - 1) as isize)
    }
}

/// Try the lock for `mutex_lock_spec` and `retry_mutex_lock`.
fn attempt_mutex_lock(process: &mut ProcessSync, tid: usize, mutex_id: usize, current: TaskId) -> (step:
    SyscallStep)
    requires
        old(process).wf(),
        mutex_id < old(process).mutex_list@.len(),
        old(process).mutex_list@[mutex_id as int] is Some,
        !old(process)@.mutex_list[mutex_id as int]->Some_0.1 ==> acquire_fits(
            old(process)@,
            tid as int,
            mutex_id as int,
        ) && bump_fits(old(process)@.mutex_need, tid as int, mutex_id as int, -1),
    ensures
        final(process).wf(),
        (final(process)@, step) == mutex_attempt(
            old(process)@,
            tid as int,
            mutex_id as int,
            current,
        ),
{
    let outcome = match &mut process.mutex_list[mutex_id] {
        Some(m) => m.lock(current),
        None => LockOutcome::Yield,
    };
    let ghost tried = process@;
    assert(tried =~= ProcessSyncView {
        mutex_list: old(process)@.mutex_list.update(
            mutex_id as int,
            Some(after_lock(old(process)@.mutex_list[mutex_id as int]->Some_0, current).0),
        ),
        ..old(process)@
    });
    match outcome {
        LockOutcome::Acquired => {
            bump_counter(&mut process.mutex_available, mutex_id, -1);
            bump(&mut process.mutex_allocation, tid, mutex_id, 1);
            bump(&mut process.mutex_need, tid, mutex_id, -1);
            assert(process@ =~= mutex_acquired(tried, tid as int, mutex_id as int));
            SyscallStep::Return(0)
        },
        LockOutcome::Block => SyscallStep::Block,
        LockOutcome::Yield => SyscallStep::Yield,
    }
}

/// Mutex lock syscall by thread `tid`, run by task `current`, on mutex
/// `mutex_id`. The request is counted; with deadlock detection on, the call
/// returns `DEADLOCK` with nothing changed when granting it could deadlock
/// the process. Otherwise the mutex is tried: taken at once (returns 0),
/// or `current` must block, and the call completes with
/// `complete_mutex_lock` once it is handed the mutex, or `current` must
/// yield and then call `retry_mutex_lock`.
pub fn sys_mutex_lock(process: &mut ProcessSync, tid: usize, mutex_id: usize, current: TaskId) -> (step:
    SyscallStep)
    requires
        old(process).wf(),
        mutex_id < old(process).mutex_list@.len(),
        old(process).mutex_list@[mutex_id as int] is Some,
        bump_fits(old(process)@.mutex_need, tid as int, mutex_id as int, 1),
        mutex_lock_proceeds(old(process)@, tid as int, mutex_id as int)
            && !old(process)@.mutex_list[mutex_id as int]->Some_0.1 ==> acquire_fits(
            old(process)@,
            tid as int,
            mutex_id as int,
        ),
    ensures
        final(process).wf(),
        (final(process)@, step) == mutex_lock_spec(
            old(process)@,
            tid as int,
            mutex_id as int,
            current,
        ),
{
    bump(&mut process.mutex_need, tid, mutex_id, 1);
    assert(process@ =~= mutex_requested(old(process)@, tid as int, mutex_id as int));
    if process.is_enable != 0 && check_system_state(process, 0, mutex_id, 1) == STATE_DEADLOCK {
        bump(&mut process.mutex_need, tid, mutex_id, -1);
        assert(process@.mutex_need[tid as int] =~= old(process)@.mutex_need[tid as int]);
        assert(process@.mutex_need =~= old(process)@.mutex_need);
        assert(process@ =~= old(process)@);
        return SyscallStep::Return(DEADLOCK);
    }
    attempt_mutex_lock(process, tid, mutex_id, current)
}

/// Mutex lock syscall, again, after task `current` yielded on a held
/// spinning mutex: try the mutex once more.
pub fn retry_mutex_lock(process: &mut ProcessSync, tid: usize, mutex_id: usize, current: TaskId) -> (step:
    SyscallStep)
    requires
        old(process).wf(),
        mutex_id < old(process).mutex_list@.len(),
        old(process).mutex_list@[mutex_id as int] is Some,
        !old(process)@.mutex_list[mutex_id as int]->Some_0.1 ==> acquire_fits(
            old(process)@,
            tid as int,
            mutex_id as int,
        ) && bump_fits(old(process)@.mutex_need, tid as int, mutex_id as int, -1),
    ensures
        final(process).wf(),
        (final(process)@, step) == mutex_attempt(
            old(process)@,
            tid as int,
            mutex_id as int,
            current,
        ),
{
    attempt_mutex_lock(process, tid, mutex_id, current)
}

/// The end of the mutex lock syscall for a thread that blocked in it, once
/// it was handed mutex `mutex_id`: record the unit as thread `tid`'s.
/// Returns 0.
pub fn complete_mutex_lock(process: &mut ProcessSync, tid: usize, mutex_id: usize) -> (r: isize)
    requires
        old(process).wf(),
        acquire_fits(old(process)@, tid as int, mutex_id as int),
        bump_fits(old(process)@.mutex_need, tid as int, mutex_id as int, -1),
    ensures
        final(process).wf(),
        final(process)@ == mutex_acquired(old(process)@, tid as int, mutex_id as int),
        r == 0,
{
    bump_counter(&mut process.mutex_available, mutex_id, -1);
    bump(&mut process.mutex_allocation, tid, mutex_id, 1);
    bump(&mut process.mutex_need, tid, mutex_id, -1);
    assert(process@ =~= mutex_acquired(old(process)@, tid as int, mutex_id as int));
    0
}

/// Mutex unlock syscall: thread `tid` unlocks mutex `mutex_id` and gives
/// the unit back. Returns 0, and the waiting task now holding the mutex,
/// to be woken, if any.
pub fn sys_mutex_unlock(process: &mut ProcessSync, tid: usize, mutex_id: usize) -> (r: (
    isize,
    Option<TaskId>,
))
    requires
        old(process).wf(),
        mutex_id < old(process).mutex_list@.len(),
        old(process).mutex_list@[mutex_id as int] is Some,
        counter_fits(old(process)@.mutex_available, mutex_id as int, 1),
        bump_fits(old(process)@.mutex_allocation, tid as int, mutex_id as int, -1),
    ensures
        final(process).wf(),
        (final(process)@, r.1) == mutex_unlock_spec(old(process)@, tid as int, mutex_id as int),
        r.0 == 0,
{
    let woken = match &mut process.mutex_list[mutex_id] {
        Some(m) => m.unlock(),
        None => None,
    };
    bump_counter(&mut process.mutex_available, mutex_id, 1);
    bump(&mut process.mutex_allocation, tid, mutex_id, -1);
    assert(process@ =~= mutex_unlock_spec(old(process)@, tid as int, mutex_id as int).0);
    (0, woken)
}

/// Semaphore create syscall: add a semaphore with `res_count` units to the
/// process and return its id.
pub fn sys_semaphore_create(process: &mut ProcessSync, res_count: usize) -> (id: isize)
    requires
        old(process).wf(),
    ensures
        final(process).wf(),
        final(process)@ == semaphore_create_spec(old(process)@, res_count).0,
        id == semaphore_create_spec(old(process)@, res_count).1 as isize,
{
    let id = find_free_slot(&process.semaphore_list);
    proof {
        lemma_first_free_same_slots(old(process).semaphore_list@, old(process)@.semaphore_list, 0);
    }
    if id < process.semaphore_list.len() {
        process.semaphore_list.set(id, Some(Semaphore::new(res_count)));
        process.semaphore_available.set(id, #[verifier::truncate] (res_count as isize));
        assert(process@ =~= semaphore_create_spec(old(process)@, res_count).0);
        #[verifier::truncate]
        (id as isize)
    } else {
        process.semaphore_list.push(Some(Semaphore::new(res_count)));
        process.semaphore_available.push(#[verifier::truncate] (res_count as isize));
        push_column(&mut process.semaphore_allocation, 0);
        push_column(&mut process.semaphore_need, 0);
        assert(process@ =~= semaphore_create_spec(old(process)@, res_count).0);
        #[verifier::truncate]
        ((process.semaphore_list.len() - 1) as isize)
    }
}

/// Semaphore up syscall (V) by thread `tid` on semaphore `sem_id`. Returns
/// 0, and the task to wake, if any.
pub fn sys_semaphore_up(process: &mut ProcessSync, tid: usize, sem_id: usize) -> (r: (
    isize,
    Option<TaskId>,
))
    requires
        old(process).wf(),
        sem_id < old(process).semaphore_list@.len(),
        old(process).semaphore_list@[sem_id as int] matches Some(s) && s.inner.count < isize::MAX,
        counter_fits(old(process)@.semaphore_available, sem_id as int, 1),
        bump_fits(old(process)@.semaphore_allocation, tid as int, sem_id as int, -1),
    ensures
        final(process).wf(),
        (final(process)@, r.1) == semaphore_up_spec(old(process)@, tid as int, sem_id as int),
        r.0 == 0,
{
    let woken = match &mut process.semaphore_list[sem_id] {
        Some(sem) => sem.up(),
        None => None,
    };
    bump_counter(&mut process.semaphore_available, sem_id, 1);
    bump(&mut process.semaphore_allocation, tid, sem_id, -1);
    assert(process@ =~= semaphore_up_spec(old(process)@, tid as int, sem_id as int).0);
    (0, woken)
}

/// Semaphore down syscall (P) by thread `tid`, run by task `current`, on
/// semaphore `sem_id`. With deadlock detection on, returns `DEADLOCK` with
/// nothing changed when granting the request could deadlock the process; returns 0 when the unit was
/// taken; asks to block `current` when none was free, and the call then
/// completes with `complete_semaphore_down` once `current` is woken.
pub fn sys_semaphore_down(
    process: &mut ProcessSync,
    tid: usize,
    sem_id: usize,
    current: TaskId,
) -> (step: SyscallStep)
    requires
        old(process).wf(),
        sem_id < old(process).semaphore_list@.len(),
        old(process).semaphore_list@[sem_id as int] matches Some(s) && s.inner.count > isize::MIN,
        bump_fits(old(process)@.semaphore_need, tid as int, sem_id as int, 1),
        semaphore_down_proceeds(old(process)@, tid as int, sem_id as int) && !after_down(
            old(process)@.semaphore_list[sem_id as int]->Some_0,
            current,
        ).1 ==> counter_fits(old(process)@.semaphore_available, sem_id as int, -1) && bump_fits(
            old(process)@.semaphore_allocation,
            tid as int,
            sem_id as int,
            1,
        ),
    ensures
        final(process).wf(),
        (final(process)@, step) == semaphore_down_spec(
            old(process)@,
            tid as int,
            sem_id as int,
            current,
        ),
{
    bump(&mut process.semaphore_need, tid, sem_id, 1);
    assert(process@ =~= semaphore_requested(old(process)@, tid as int, sem_id as int));
    if process.is_enable != 0 && check_system_state(process, 1, sem_id, 1) == STATE_DEADLOCK {
        bump(&mut process.semaphore_need, tid, sem_id, -1);
        assert(process@.semaphore_need[tid as int] =~= old(process)@.semaphore_need[tid as int]);
        assert(process@.semaphore_need =~= old(process)@.semaphore_need);
        assert(process@ =~= old(process)@);
        return SyscallStep::Return(DEADLOCK);
    }
    let ghost req = process@;
    let blocked = match &mut process.semaphore_list[sem_id] {
        Some(sem) => sem.down(current),
        None => false,
    };
    let ghost downed = process@;
    assert(downed =~= ProcessSyncView {
        semaphore_list: req.semaphore_list.update(
            sem_id as int,
            Some(after_down(req.semaphore_list[sem_id as int]->Some_0, current).0),
        ),
        ..req
    });
    if blocked {
        return SyscallStep::Block;
    }
    bump_counter(&mut process.semaphore_available, sem_id, -1);
    bump(&mut process.semaphore_allocation, tid, sem_id, 1);
    bump(&mut process.semaphore_need, tid, sem_id, -1);
    assert(process@ =~= semaphore_acquired(downed, tid as int, sem_id as int));
    SyscallStep::Return(0)
}

/// The end of the semaphore down syscall for a thread that blocked in it,
/// once woken: record the unit as allocated to thread `tid`. Returns 0.
pub fn complete_semaphore_down(process: &mut ProcessSync, tid: usize, sem_id: usize) -> (r: isize)
    requires
        old(process).wf(),
        counter_fits(old(process)@.semaphore_available, sem_id as int, -1),
        bump_fits(old(process)@.semaphore_allocation, tid as int, sem_id as int, 1),
        bump_fits(old(process)@.semaphore_need, tid as int, sem_id as int, -1),
    ensures
        final(process).wf(),
        final(process)@ == semaphore_acquired(old(process)@, tid as int, sem_id as int),
        r == 0,
{
    bump_counter(&mut process.semaphore_available, sem_id, -1);
    bump(&mut process.semaphore_allocation, tid, sem_id, 1);
    bump(&mut process.semaphore_need, tid, sem_id, -1);
    assert(process@ =~= semaphore_acquired(old(process)@, tid as int, sem_id as int));
    0
}

/// Condvar create syscall: add a condition variable to the process and
/// return its id.
pub fn sys_condvar_create(process: &mut ProcessSync) -> (id: isize)
    requires
        old(process).wf(),
    ensures
        final(process).wf(),
        final(process)@ == condvar_create_spec(old(process)@).0,
        id == condvar_create_spec(old(process)@).1 as isize,
{
    let id = find_free_slot(&process.condvar_list);
    proof {
        lemma_first_free_same_slots(old(process).condvar_list@, old(process)@.condvar_list, 0);
    }
    if id < process.condvar_list.len() {
        process.condvar_list.set(id, Some(Condvar::new()));
        assert(process@ =~= condvar_create_spec(old(process)@).0);
        #[verifier::truncate]
        (id as isize)
    } else {
        process.condvar_list.push(Some(Condvar::new()));
        assert(process@ =~= condvar_create_spec(old(process)@).0);
        #[verifier::truncate]
        ((process.condvar_list.len() - 1) as isize)
    }
}

/// Condvar signal syscall on condition variable `condvar_id`: wake the
/// first thread blocked on it, if any. Returns 0, and that thread's task.
pub fn sys_condvar_signal(process: &mut ProcessSync, condvar_id: usize) -> (r: (isize, Option<TaskId>))
    requires
        old(process).wf(),
        condvar_id < old(process).condvar_list@.len(),
        old(process).condvar_list@[condvar_id as int] is Some,
    ensures
        final(process).wf(),
        (final(process)@, r.1) == condvar_signal_spec(old(process)@, condvar_id as int),
        r.0 == 0,
{
    let woken = match &mut process.condvar_list[condvar_id] {
        Some(c) => c.signal(),
        None => None,
    };
    assert(process@ =~= condvar_signal_spec(old(process)@, condvar_id as int).0);
    (0, woken)
}

/// Condvar wait syscall by task `current` on condition variable
/// `condvar_id` with mutex `mutex_id`: release the mutex and join the
/// condition variable's queue. Returns `Block`, and the task now holding
/// the mutex, to be woken, if any. Once `current` is signalled, the call
/// goes on with `complete_condvar_wait`.
pub fn sys_condvar_wait(
    process: &mut ProcessSync,
    condvar_id: usize,
    mutex_id: usize,
    current: TaskId,
) -> (r: (SyscallStep, Option<TaskId>))
    requires
        old(process).wf(),
        condvar_id < old(process).condvar_list@.len(),
        old(process).condvar_list@[condvar_id as int] is Some,
        mutex_id < old(process).mutex_list@.len(),
        old(process).mutex_list@[mutex_id as int] is Some,
    ensures
        final(process).wf(),
        (final(process)@, r.1) == condvar_wait_spec(
            old(process)@,
            condvar_id as int,
            mutex_id as int,
            current,
        ),
        r.0 == SyscallStep::Block,
{
    let woken = match &mut process.mutex_list[mutex_id] {
        Some(m) => m.unlock(),
        None => None,
    };
    match &mut process.condvar_list[condvar_id] {
        Some(c) => c.wait_queue.push_back(current),
        None => {},
    }
    assert(process@ =~= condvar_wait_spec(
        old(process)@,
        condvar_id as int,
        mutex_id as int,
        current,
    ).0);
    (SyscallStep::Block, woken)
}

/// The end of the condvar wait syscall, once task `current` was signalled:
/// lock mutex `mutex_id` again. Returns 0 when it is taken; asks to block
/// when `current` must wait in the mutex's queue, and the wait returns 0
/// once it is handed the mutex; asks to yield when the mutex spins, and
/// then this call is made again.
pub fn complete_condvar_wait(process: &mut ProcessSync, mutex_id: usize, current: TaskId) -> (step:
    SyscallStep)
    requires
        old(process).wf(),
        mutex_id < old(process).mutex_list@.len(),
        old(process).mutex_list@[mutex_id as int] is Some,
    ensures
        final(process).wf(),
        (final(process)@, step) == condvar_relock_spec(old(process)@, mutex_id as int, current),
{
    let outcome = match &mut process.mutex_list[mutex_id] {
        Some(m) => m.lock(current),
        None => LockOutcome::Yield,
    };
    assert(process@ =~= condvar_relock_spec(old(process)@, mutex_id as int, current).0);
    match outcome {
        LockOutcome::Acquired => SyscallStep::Return(0),
        LockOutcome::Block => SyscallStep::Block,
        LockOutcome::Yield => SyscallStep::Yield,
    }
}

/// Enable deadlock detection syscall: with `enabled` not zero, lock and
/// down requests that could deadlock the process are refused from now on;
/// with zero, none are. Returns 0.
pub fn sys_enable_deadlock_detect(process: &mut ProcessSync, enabled: usize) -> (r: isize)
    requires
        old(process).wf(),
    ensures
        final(process).wf(),
        final(process)@ == (ProcessSyncView { is_enable: enabled, ..old(process)@ }),
        r == 0,
{
    process.is_enable = enabled;
    assert(process@ =~= (ProcessSyncView { is_enable: enabled, ..old(process)@ }));
    0
}

/// Sleep syscall at time `now_ms` for `ms` milliseconds: returns 0 and the
/// time at which the caller's timer expires; the caller then blocks until it
/// does.
pub fn sys_sleep(now_ms: usize, ms: usize) -> (r: (isize, usize))
    requires
        now_ms + ms <= usize::MAX,
    ensures
        r == (0isize, (now_ms + ms) as usize),
{
    let expire_ms = now_ms + ms;
    (0, expire_ms)
}

} // verus!
