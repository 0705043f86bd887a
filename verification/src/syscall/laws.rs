//! Laws of the synchronisation system calls.
use crate::sync::mutex::{mutex_consistent, MutexKind};
use crate::sync::semaphore::TaskId;
use crate::syscall::sync::{
    acquire_fits, condvar_create_spec, condvar_signal_spec, mutex_attempt, condvar_wait_spec, mutex_acquired, mutex_create_spec,
    mutex_kind, mutex_lock_spec, mutex_requested, mutex_unlock_spec, semaphore_down_spec,
    semaphore_acquired, semaphore_create_spec, semaphore_request_safe, semaphore_requested, semaphore_up_spec,
};
use crate::syscall::{SyscallStep, DEADLOCK};
use crate::task::banker::{
    allocation_nonnegative, greedy_completes, is_safe_state, lemma_check_decides_safety,
};
use crate::task::process::{
    bump_fits, bumped, column_pushed, counter_fits, first_free, view_wf, ProcessSyncView,
};
use vstd::prelude::*;

verus! {

/// With deadlock detection on, a lock request is refused, with `DEADLOCK`
/// and nothing changed, exactly when the banker's check fails with the
/// request counted; with detection off it is never refused.
pub proof fn lemma_mutex_lock_refusal(v: ProcessSyncView, tid: int, id: int, current: TaskId)
    ensures
        mutex_lock_spec(v, tid, id, current).1 == SyscallStep::Return(DEADLOCK) <==> (v.is_enable
            != 0 && !greedy_completes(
            mutex_requested(v, tid, id).mutex_available,
            mutex_requested(v, tid, id).mutex_need,
            mutex_requested(v, tid, id).mutex_allocation,
        )),
        mutex_lock_spec(v, tid, id, current).1 == SyscallStep::Return(DEADLOCK) ==> mutex_lock_spec(
            v,
            tid,
            id,
            current,
        ).0 == v,
{
}

/// Deadlock avoidance for mutexes: with detection on and no negative mutex
/// allocation, a lock request is refused exactly when, with the request
/// counted, no order lets every thread finish.
pub proof fn lemma_lock_refused_iff_unsafe(v: ProcessSyncView, tid: int, id: int, current: TaskId)
    requires
        view_wf(v),
        v.is_enable != 0,
        bump_fits(v.mutex_need, tid, id, 1),
        allocation_nonnegative(v.mutex_allocation),
    ensures
        mutex_lock_spec(v, tid, id, current).1 == SyscallStep::Return(DEADLOCK) <==> !is_safe_state(
            mutex_requested(v, tid, id).mutex_available,
            mutex_requested(v, tid, id).mutex_need,
            mutex_requested(v, tid, id).mutex_allocation,
        ),
{
    let req = mutex_requested(v, tid, id);
    assert(view_wf(req)) by {
        assert forall|t: int| 0 <= t < req.mutex_need.len() implies #[trigger] req.mutex_need[t].len()
            == req.mutex_list.len() by {
            assert(v.mutex_need[t].len() == v.mutex_list.len());
        }
    }
    lemma_check_decides_safety(req.mutex_available, req.mutex_need, req.mutex_allocation);
    lemma_mutex_lock_refusal(v, tid, id, current);
}

/// A lock that takes a mutex at once, followed by an unlock by the same
/// thread, leaves the process as it was and wakes nobody.
pub proof fn lemma_mutex_lock_unlock_restores(v: ProcessSyncView, tid: int, id: int, current: TaskId)
    requires
        view_wf(v),
        0 <= id < v.mutex_list.len(),
        v.mutex_list[id] is Some,
        bump_fits(v.mutex_need, tid, id, 1),
        acquire_fits(v, tid, id),
        mutex_lock_spec(v, tid, id, current).1 == SyscallStep::Return(0),
    ensures
        mutex_unlock_spec(mutex_lock_spec(v, tid, id, current).0, tid, id) == (v, None::<TaskId>),
{
    assert(mutex_consistent(v.mutex_list[id]->Some_0));
    let after = mutex_unlock_spec(mutex_lock_spec(v, tid, id, current).0, tid, id).0;
    assert(after.mutex_list[id] == v.mutex_list[id]);
    assert(after.mutex_list =~= v.mutex_list);
    assert(after.mutex_available =~= v.mutex_available);
    assert(after.mutex_allocation[tid] =~= v.mutex_allocation[tid]);
    assert(after.mutex_allocation =~= v.mutex_allocation);
    assert(after.mutex_need[tid] =~= v.mutex_need[tid]);
    assert(after.mutex_need =~= v.mutex_need);
    assert(after =~= v);
}

/// With deadlock detection on, a down whose request fails the banker's
/// check is answered `DEADLOCK` and changes nothing; any other down is not
/// refused.
pub proof fn lemma_semaphore_down_refusal(v: ProcessSyncView, tid: int, id: int, current: TaskId)
    ensures
        v.is_enable != 0 && !semaphore_request_safe(v, tid, id) ==> semaphore_down_spec(
            v,
            tid,
            id,
            current,
        ) == (v, SyscallStep::Return(DEADLOCK)),
        v.is_enable == 0 || semaphore_request_safe(v, tid, id) ==> semaphore_down_spec(
            v,
            tid,
            id,
            current,
        ).1 != SyscallStep::Return(DEADLOCK),
{
}

/// Deadlock avoidance for semaphores: with detection on and no negative
/// semaphore allocation, a down is refused exactly when, with the request
/// counted, no order lets every thread finish.
pub proof fn lemma_down_refused_iff_unsafe(v: ProcessSyncView, tid: int, id: int, current: TaskId)
    requires
        view_wf(v),
        v.is_enable != 0,
        bump_fits(v.semaphore_need, tid, id, 1),
        allocation_nonnegative(v.semaphore_allocation),
    ensures
        semaphore_down_spec(v, tid, id, current).1 == SyscallStep::Return(DEADLOCK)
            <==> !is_safe_state(
            semaphore_requested(v, tid, id).semaphore_available,
            semaphore_requested(v, tid, id).semaphore_need,
            semaphore_requested(v, tid, id).semaphore_allocation,
        ),
{
    let req = semaphore_requested(v, tid, id);
    assert(view_wf(req)) by {
        assert forall|t: int| 0 <= t < req.semaphore_need.len() implies #[trigger] req.semaphore_need[t].len()
            == req.semaphore_list.len() by {
            assert(v.semaphore_need[t].len() == v.semaphore_list.len());
        }
    }
    lemma_check_decides_safety(req.semaphore_available, req.semaphore_need, req.semaphore_allocation);
}

/// A down that takes a unit at once, followed by an up from the same
/// thread, leaves the process as it was and wakes nobody.
pub proof fn lemma_semaphore_down_up_restores(
    v: ProcessSyncView,
    tid: int,
    id: int,
    current: TaskId,
)
    requires
        view_wf(v),
        0 <= id < v.semaphore_list.len(),
        v.semaphore_list[id] is Some,
        bump_fits(v.semaphore_need, tid, id, 1),
        counter_fits(v.semaphore_available, id, -1),
        bump_fits(v.semaphore_allocation, tid, id, 1),
        semaphore_down_spec(v, tid, id, current).1 == SyscallStep::Return(0),
    ensures
        semaphore_up_spec(semaphore_down_spec(v, tid, id, current).0, tid, id) == (v, None::<TaskId>),
{
    let downed = semaphore_down_spec(v, tid, id, current).0;
    let after = semaphore_up_spec(downed, tid, id).0;
    assert(after.semaphore_list =~= v.semaphore_list);
    assert(after.semaphore_available =~= v.semaphore_available);
    assert(after.semaphore_allocation[tid] =~= v.semaphore_allocation[tid]);
    assert(after.semaphore_allocation =~= v.semaphore_allocation);
    assert(after.semaphore_need[tid] =~= v.semaphore_need[tid]);
    assert(after.semaphore_need =~= v.semaphore_need);
    assert(after =~= v);
}

/// The first free slot is free, or past the end of the table.
proof fn lemma_first_free_bounds<T>(slots: Seq<Option<T>>, k: int)
    requires
        0 <= k,
    ensures
        k <= first_free(slots, k) <= slots.len() || (k > slots.len() && first_free(slots, k)
            == slots.len()),
        first_free(slots, k) < slots.len() ==> slots[first_free(slots, k)] is None,
        forall|j: int| k <= j < first_free(slots, k) ==> #[trigger] slots[j] is Some,
    decreases slots.len() - k,
{
    if k < slots.len() && slots[k] is Some {
        lemma_first_free_bounds(slots, k + 1);
    }
}

/// A new mutex gets the lowest id that was free, or a new one when none
/// was; it is free there, with one free unit, and every other mutex stays
/// as it was.
pub proof fn lemma_mutex_create_fresh(v: ProcessSyncView, blocking: bool)
    requires
        view_wf(v),
    ensures
        ({
            let (after, id) = mutex_create_spec(v, blocking);
            &&& 0 <= id <= v.mutex_list.len()
            &&& (id < v.mutex_list.len() ==> v.mutex_list[id] is None)
            &&& forall|j: int| 0 <= j < id ==> #[trigger] v.mutex_list[j] is Some
            &&& after.mutex_list[id] == Some((mutex_kind(blocking), false, Seq::<TaskId>::empty()))
            &&& after.mutex_available[id] == 1
            &&& forall|j: int|
                0 <= j < v.mutex_list.len() && j != id ==> #[trigger] after.mutex_list[j]
                    == v.mutex_list[j] && after.mutex_available[j] == v.mutex_available[j]
        }),
{
    lemma_first_free_bounds(v.mutex_list, 0);
}

/// A wait on a condition variable with no waiters, followed by a signal on
/// it, wakes the waiting task and leaves the queue empty again.
pub proof fn lemma_wait_then_signal(v: ProcessSyncView, cid: int, mid: int, current: TaskId)
    requires
        0 <= cid < v.condvar_list.len(),
        v.condvar_list[cid] == Some(Seq::<TaskId>::empty()),
        0 <= mid < v.mutex_list.len(),
    ensures
        ({
            let (signalled, woken) = condvar_signal_spec(
                condvar_wait_spec(v, cid, mid, current).0,
                cid,
            );
            &&& woken == Some(current)
            &&& signalled.condvar_list == v.condvar_list
        }),
{
    let waited = condvar_wait_spec(v, cid, mid, current).0;
    assert(waited.condvar_list[cid]->Some_0 =~= seq![current]);
    let signalled = condvar_signal_spec(waited, cid).0;
    assert(signalled.condvar_list[cid]->Some_0 =~= Seq::<TaskId>::empty());
    assert(signalled.condvar_list =~= v.condvar_list);
}

/// Units of column `j` held by the first `rows` rows of `m`.
pub open spec fn column_held(m: Seq<Seq<isize>>, j: int, rows: int) -> int
    decreases rows,
{
    if rows <= 0 {
        0
    } else {
        column_held(m, j, rows - 1) + m[rows - 1][j]
    }
}

/// Units of mutex `j` in the process: free ones plus held ones. A mutex
/// that is free or held once has one.
pub open spec fn mutex_units(v: ProcessSyncView, j: int) -> int {
    v.mutex_available[j] + column_held(v.mutex_allocation, j, v.mutex_allocation.len() as int)
}

/// Adding `delta` at `(row, col)` adds it to column `col`'s sum over the
/// rows that include `row`, and to no other column's.
proof fn lemma_column_held_bumped(
    m: Seq<Seq<isize>>,
    row: int,
    col: int,
    delta: int,
    j: int,
    w: int,
    rows: int,
)
    requires
        bump_fits(m, row, col, delta),
        forall|t: int| 0 <= t < m.len() ==> #[trigger] m[t].len() == w,
        0 <= j < w,
        0 <= rows <= m.len(),
    ensures
        column_held(bumped(m, row, col, delta), j, rows) == column_held(m, j, rows) + if j == col
            && row < rows {
            delta
        } else {
            0
        },
    decreases rows,
{
    if rows > 0 {
        lemma_column_held_bumped(m, row, col, delta, j, w, rows - 1);
    }
}

/// Taking or giving back a mutex keeps the units of every mutex: each
/// mutex that is free or held once stays so.
pub proof fn lemma_mutex_units_kept(v: ProcessSyncView, tid: int, id: int, j: int)
    requires
        view_wf(v),
        0 <= j < v.mutex_list.len(),
        0 <= id < v.mutex_list.len(),
        v.mutex_list[id] is Some,
    ensures
        acquire_fits(v, tid, id) && bump_fits(v.mutex_need, tid, id, -1) ==> mutex_units(
            mutex_acquired(v, tid, id),
            j,
        ) == mutex_units(v, j),
        counter_fits(v.mutex_available, id, 1) && bump_fits(v.mutex_allocation, tid, id, -1)
            ==> mutex_units(mutex_unlock_spec(v, tid, id).0, j) == mutex_units(v, j),
{
    let w = v.mutex_list.len() as int;
    let n = v.mutex_allocation.len() as int;
    if acquire_fits(v, tid, id) {
        lemma_column_held_bumped(v.mutex_allocation, tid, id, 1, j, w, n);
    }
    if bump_fits(v.mutex_allocation, tid, id, -1) {
        lemma_column_held_bumped(v.mutex_allocation, tid, id, -1, j, w, n);
    }
}

/// Creating a mutex or a semaphore keeps the tables and matrices fitting
/// together; a new id adds one entry to the table and one zero column to
/// its matrices, and keeps their rows.
pub proof fn lemma_create_keeps_shape(v: ProcessSyncView, blocking: bool, res_count: usize)
    requires
        view_wf(v),
    ensures
        view_wf(mutex_create_spec(v, blocking).0),
        view_wf(semaphore_create_spec(v, res_count).0),
        mutex_create_spec(v, blocking).1 == v.mutex_list.len() ==> {
            let after = mutex_create_spec(v, blocking).0;
            &&& after.mutex_list.len() == v.mutex_list.len() + 1
            &&& after.mutex_allocation == column_pushed(v.mutex_allocation, 0isize)
            &&& after.mutex_need == column_pushed(v.mutex_need, 0isize)
        },
        semaphore_create_spec(v, res_count).1 == v.semaphore_list.len() ==> {
            let after = semaphore_create_spec(v, res_count).0;
            &&& after.semaphore_list.len() == v.semaphore_list.len() + 1
            &&& after.semaphore_allocation == column_pushed(v.semaphore_allocation, 0isize)
            &&& after.semaphore_need == column_pushed(v.semaphore_need, 0isize)
        },
{
    lemma_first_free_bounds(v.mutex_list, 0);
    lemma_first_free_bounds(v.semaphore_list, 0);
}

/// A lock call keeps the units of every mutex too: refused, it changes
/// nothing; counting the request changes only the need; a taken mutex moves
/// a unit from free to held.
pub proof fn lemma_mutex_lock_keeps_units(v: ProcessSyncView, tid: int, id: int, current: TaskId, j: int)
    requires
        view_wf(v),
        0 <= j < v.mutex_list.len(),
        0 <= id < v.mutex_list.len(),
        v.mutex_list[id] is Some,
        bump_fits(v.mutex_need, tid, id, 1),
        acquire_fits(v, tid, id),
    ensures
        mutex_units(mutex_lock_spec(v, tid, id, current).0, j) == mutex_units(v, j),
        mutex_units(mutex_attempt(v, tid, id, current).0, j) == mutex_units(v, j),
{
    let w = v.mutex_list.len() as int;
    let n = v.mutex_allocation.len() as int;
    lemma_column_held_bumped(v.mutex_allocation, tid, id, 1, j, w, n);
    let req = mutex_requested(v, tid, id);
    assert(req.mutex_allocation == v.mutex_allocation);
}

/// A new semaphore with `n` units takes the lowest free id, or a new one
/// when none was free; its count is `n`, nobody waits on it,
/// and the banker's free count for it is the same `n`; every other
/// semaphore and free count stays as it was.
pub proof fn lemma_semaphore_create_counts(v: ProcessSyncView, n: usize)
    requires
        view_wf(v),
    ensures
        ({
            let (after, id) = semaphore_create_spec(v, n);
            &&& 0 <= id <= v.semaphore_list.len()
            &&& (id < v.semaphore_list.len() ==> v.semaphore_list[id] is None)
            &&& forall|j: int| 0 <= j < id ==> #[trigger] v.semaphore_list[j] is Some
            &&& after.semaphore_list[id] is Some
            &&& after.semaphore_list[id]->Some_0.0 == n as isize as int
            &&& after.semaphore_list[id]->Some_0.1.len() == 0
            &&& after.semaphore_available[id] == n as isize
            &&& after.semaphore_available[id] as int == after.semaphore_list[id]->Some_0.0
            &&& forall|j: int|
                0 <= j < v.semaphore_list.len() && j != id ==> #[trigger] after.semaphore_list[j]
                    == v.semaphore_list[j] && after.semaphore_available[j]
                    == v.semaphore_available[j]
        }),
{
    lemma_first_free_bounds(v.semaphore_list, 0);
}

/// A new condition variable takes the lowest free id, or a new one when
/// none was free, and has nobody waiting; every other one stays.
pub proof fn lemma_condvar_create_empty(v: ProcessSyncView)
    ensures
        ({
            let (after, id) = condvar_create_spec(v);
            &&& 0 <= id <= v.condvar_list.len()
            &&& (id < v.condvar_list.len() ==> v.condvar_list[id] is None)
            &&& forall|j: int| 0 <= j < id ==> #[trigger] v.condvar_list[j] is Some
            &&& after.condvar_list[id] == Some(Seq::<TaskId>::empty())
            &&& forall|j: int|
                0 <= j < v.condvar_list.len() && j != id ==> #[trigger] after.condvar_list[j]
                    == v.condvar_list[j]
        }),
{
    lemma_first_free_bounds(v.condvar_list, 0);
}

/// The up syscall gives the unit back to the semaphore and to the free
/// count, takes it from the caller's allocation, and wakes the task that
/// has waited longest when one is owed the unit: the first in the queue,
/// which leaves it while the others keep their order.
pub proof fn lemma_semaphore_up_syscall(v: ProcessSyncView, tid: int, id: int)
    requires
        view_wf(v),
        0 <= id < v.semaphore_list.len(),
        v.semaphore_list[id] is Some,
        counter_fits(v.semaphore_available, id, 1),
        bump_fits(v.semaphore_allocation, tid, id, -1),
    ensures
        ({
            let s = v.semaphore_list[id]->Some_0;
            let (after, woken) = semaphore_up_spec(v, tid, id);
            &&& after.semaphore_list[id] is Some
            &&& after.semaphore_list[id]->Some_0.0 == s.0 + 1
            &&& after.semaphore_available[id] == v.semaphore_available[id] + 1
            &&& after.semaphore_allocation[tid][id] == v.semaphore_allocation[tid][id] - 1
            &&& (s.0 + 1 <= 0 && s.1.len() > 0 ==> {
                &&& woken == Some(s.1[0])
                &&& after.semaphore_list[id]->Some_0.1.len() == s.1.len() - 1
                &&& forall|k: int|
                    0 <= k < s.1.len() - 1 ==> #[trigger] after.semaphore_list[id]->Some_0.1[k]
                        == s.1[k + 1]
            })
            &&& (!(s.0 + 1 <= 0 && s.1.len() > 0) ==> woken is None
                && after.semaphore_list[id]->Some_0.1 == s.1)
        }),
{
}

/// Blocked downs are woken in the order they blocked: with detection off,
/// on a semaphore with no unit left and nobody waiting, downs by tasks `a`
/// and then `b` both block, and the next up wakes `a`.
pub proof fn lemma_semaphore_syscalls_fifo(
    v: ProcessSyncView,
    id: int,
    t0: int,
    t1: int,
    t2: int,
    a: TaskId,
    b: TaskId,
)
    requires
        v.is_enable == 0,
        0 <= id < v.semaphore_list.len(),
        v.semaphore_list[id] == Some((0int, Seq::<TaskId>::empty())),
    ensures
        ({
            let (v1, step_a) = semaphore_down_spec(v, t0, id, a);
            let (v2, step_b) = semaphore_down_spec(v1, t1, id, b);
            let (v3, woken) = semaphore_up_spec(v2, t2, id);
            &&& step_a == SyscallStep::Block
            &&& step_b == SyscallStep::Block
            &&& woken == Some(a)
            &&& v3.semaphore_list[id] == Some((-1int, seq![b]))
        }),
{
    let v2 = semaphore_down_spec(semaphore_down_spec(v, t0, id, a).0, t1, id, b).0;
    assert(v2.semaphore_list[id]->Some_0.1 =~= seq![a, b]);
    let v3 = semaphore_up_spec(v2, t2, id).0;
    assert(v3.semaphore_list[id]->Some_0.1 =~= seq![b]);
}

/// A signal on a condition variable wakes the task that has waited
/// longest: the first in its queue, which leaves it while the others keep
/// their order; with nobody waiting, nothing changes.
pub proof fn lemma_condvar_signal_syscall(v: ProcessSyncView, id: int)
    requires
        0 <= id < v.condvar_list.len(),
        v.condvar_list[id] is Some,
    ensures
        ({
            let q = v.condvar_list[id]->Some_0;
            let (after, woken) = condvar_signal_spec(v, id);
            &&& (q.len() > 0 ==> {
                &&& woken == Some(q[0])
                &&& after.condvar_list[id] is Some
                &&& after.condvar_list[id]->Some_0.len() == q.len() - 1
                &&& forall|k: int|
                    0 <= k < q.len() - 1 ==> #[trigger] after.condvar_list[id]->Some_0[k] == q[k + 1]
            })
            &&& (q.len() == 0 ==> woken is None && after.condvar_list =~= v.condvar_list)
        }),
{
}

/// Waiters on a condition variable are signalled in the order they came:
/// after waits by `a` and then `b`, a signal wakes the longest waiter,
/// which is `a` when nobody waited before.
pub proof fn lemma_condvar_syscalls_fifo(v: ProcessSyncView, cid: int, mid: int, a: TaskId, b: TaskId)
    requires
        0 <= cid < v.condvar_list.len(),
        v.condvar_list[cid] is Some,
        0 <= mid < v.mutex_list.len(),
    ensures
        ({
            let q = v.condvar_list[cid]->Some_0;
            let v1 = condvar_wait_spec(v, cid, mid, a).0;
            let v2 = condvar_wait_spec(v1, cid, mid, b).0;
            let (v3, woken) = condvar_signal_spec(v2, cid);
            &&& woken == (if q.len() == 0 {
                Some(a)
            } else {
                Some(q[0])
            })
            &&& v3.condvar_list[cid] == Some(q.push(a).push(b).drop_first())
        }),
{
    let q = v.condvar_list[cid]->Some_0;
    let v2 = condvar_wait_spec(condvar_wait_spec(v, cid, mid, a).0, cid, mid, b).0;
    assert(v2.condvar_list[cid]->Some_0 =~= q.push(a).push(b));
    if q.len() == 0 {
        assert(q.push(a).push(b)[0] == a);
    } else {
        assert(q.push(a).push(b)[0] == q[0]);
    }
}

/// The unlock syscall hands a blocking mutex to the task that has waited
/// longest: the first in its queue is woken and the mutex stays held for
/// it; with nobody waiting, or for a spinning mutex, the mutex becomes
/// free. The unit goes back to free and leaves the caller's allocation.
pub proof fn lemma_mutex_unlock_syscall(v: ProcessSyncView, tid: int, id: int)
    requires
        view_wf(v),
        0 <= id < v.mutex_list.len(),
        v.mutex_list[id] is Some,
        counter_fits(v.mutex_available, id, 1),
        bump_fits(v.mutex_allocation, tid, id, -1),
    ensures
        ({
            let m = v.mutex_list[id]->Some_0;
            let (after, woken) = mutex_unlock_spec(v, tid, id);
            &&& after.mutex_available[id] == v.mutex_available[id] + 1
            &&& after.mutex_allocation[tid][id] == v.mutex_allocation[tid][id] - 1
            &&& (m.0 == MutexKind::Blocking && m.2.len() > 0 ==> {
                &&& woken == Some(m.2[0])
                &&& after.mutex_list[id]->Some_0.1
                &&& after.mutex_list[id]->Some_0.2.len() == m.2.len() - 1
                &&& forall|k: int|
                    0 <= k < m.2.len() - 1 ==> #[trigger] after.mutex_list[id]->Some_0.2[k] == m.2[k
                        + 1]
            })
            &&& (!(m.0 == MutexKind::Blocking && m.2.len() > 0) ==> woken is None
                && !after.mutex_list[id]->Some_0.1)
        }),
{
    assert(mutex_consistent(v.mutex_list[id]->Some_0));
}

/// Units of semaphore `j` in the process: free ones plus held ones.
pub open spec fn semaphore_units(v: ProcessSyncView, j: int) -> int {
    v.semaphore_available[j] + column_held(
        v.semaphore_allocation,
        j,
        v.semaphore_allocation.len() as int,
    )
}

/// Taking a unit of a semaphore or giving one back moves it between free
/// and held, and keeps the units of every semaphore.
pub proof fn lemma_semaphore_units_kept(v: ProcessSyncView, tid: int, id: int, j: int)
    requires
        view_wf(v),
        0 <= j < v.semaphore_list.len(),
        0 <= id < v.semaphore_list.len(),
        v.semaphore_list[id] is Some,
    ensures
        counter_fits(v.semaphore_available, id, -1) && bump_fits(v.semaphore_allocation, tid, id, 1)
            && bump_fits(v.semaphore_need, tid, id, -1) ==> semaphore_units(
            semaphore_acquired(v, tid, id),
            j,
        ) == semaphore_units(v, j),
        counter_fits(v.semaphore_available, id, 1) && bump_fits(v.semaphore_allocation, tid, id, -1)
            ==> semaphore_units(semaphore_up_spec(v, tid, id).0, j) == semaphore_units(v, j),
{
    let w = v.semaphore_list.len() as int;
    let n = v.semaphore_allocation.len() as int;
    if bump_fits(v.semaphore_allocation, tid, id, 1) {
        lemma_column_held_bumped(v.semaphore_allocation, tid, id, 1, j, w, n);
    }
    if bump_fits(v.semaphore_allocation, tid, id, -1) {
        lemma_column_held_bumped(v.semaphore_allocation, tid, id, -1, j, w, n);
    }
}

} // verus!
