//! Thread system calls.
use crate::sync::semaphore::TaskId;
use crate::task::process::{
    push_zero_row, thread_exit_spec, view_wf, zero_row_pushed, ProcessSync, ProcessSyncView,
    ThreadSlot,
};
use crate::task::trap::{start_registers, TrapContext, REG_A0};
use vstd::prelude::*;

verus! {

/// The thread table once thread `tid`, run by `task`, is in it: the table
/// grows with free slots up to `tid`, and slot `tid` holds the new thread.
pub open spec fn tasks_with(tasks: Seq<Option<ThreadSlot>>, tid: int, task: TaskId) -> Seq<
    Option<ThreadSlot>,
> {
    let grown = if tid < tasks.len() {
        tasks
    } else {
        tasks + Seq::new((tid + 1 - tasks.len()) as nat, |k: int| None::<ThreadSlot>)
    };
    grown.update(tid, Some(ThreadSlot { task, exit_code: None }))
}

/// A new thread `tid`, run by `task`, joins the thread table, and each of
/// the four matrices gets a zero row for it.
pub open spec fn thread_create_spec(v: ProcessSyncView, tid: int, task: TaskId) -> ProcessSyncView {
    ProcessSyncView {
        tasks: tasks_with(v.tasks, tid, task),
        mutex_allocation: zero_row_pushed(v.mutex_allocation, v.mutex_list.len() as int),
        mutex_need: zero_row_pushed(v.mutex_need, v.mutex_list.len() as int),
        semaphore_allocation: zero_row_pushed(
            v.semaphore_allocation,
            v.semaphore_list.len() as int,
        ),
        semaphore_need: zero_row_pushed(v.semaphore_need, v.semaphore_list.len() as int),
        ..v
    }
}

/// Thread `current_tid` waits for thread `tid`: a thread cannot wait for
/// itself (-1), nor for a thread that does not exist (-1); a thread
/// that has exited is reaped and its exit code returned; otherwise -2,
/// it has not exited yet.
pub open spec fn waittid_spec(v: ProcessSyncView, current_tid: int, tid: int) -> (
    ProcessSyncView,
    i32,
) {
    if current_tid == tid {
        (v, -1i32)
    } else if !(0 <= tid < v.tasks.len()) {
        (v, -1i32)
    } else {
        match v.tasks[tid] {
            None => (v, -1i32),
            Some(slot) => match slot.exit_code {
                Some(code) => (ProcessSyncView { tasks: v.tasks.update(tid, None), ..v }, code),
                None => (v, -2i32),
            },
        }
    }
}

/// Thread `tid` is free in the table: past its end, or a free slot.
pub open spec fn tid_free(v: ProcessSyncView, tid: int) -> bool {
    tid >= v.tasks.len() || v.tasks[tid] is None
}

/// Thread create syscall: add thread `new_tid`, a free id, run by task
/// `new_task`, to the process. The new thread starts at `entry` with its
/// user stack at `ustack_top` and `arg` in its first argument register,
/// and traps to `trap_handler` on its kernel stack at `kstack_top` in the
/// kernel address space `kernel_token`. Returns the new thread's id, and
/// the trap context it starts from; the caller has made the task and its
/// user resources, writes the context into them, and queues the task.
pub fn sys_thread_create(
    process: &mut ProcessSync,
    new_tid: usize,
    new_task: TaskId,
    entry: usize,
    arg: usize,
    ustack_top: usize,
    kstack_top: usize,
    kernel_token: usize,
    trap_handler: usize,
) -> (r: (isize, TrapContext))
    requires
        old(process).wf(),
        new_tid < usize::MAX,
        tid_free(old(process)@, new_tid as int),
    ensures
        final(process).wf(),
        final(process)@ == thread_create_spec(old(process)@, new_tid as int, new_task),
        r.0 == new_tid as isize,
        r.1.x@ == start_registers(ustack_top, arg),
        r.1.sepc == entry,
        r.1.kernel_satp == kernel_token,
        r.1.kernel_sp == kstack_top,
        r.1.trap_handler == trap_handler,
{
    while process.tasks.len() < new_tid + 1
        invariant
            new_tid < usize::MAX,
            process.tasks@.len() >= old(process).tasks@.len(),
            process.tasks@.len() <= old(process).tasks@.len() || process.tasks@.len() <= new_tid
                + 1,
            forall|k: int|
                0 <= k < old(process).tasks@.len() ==> #[trigger] process.tasks@[k] == old(
                    process,
                ).tasks@[k],
            forall|k: int|
                old(process).tasks@.len() <= k < process.tasks@.len() ==> #[trigger] process.tasks@[k]
                    is None,
            process.mutex_list == old(process).mutex_list,
            process.mutex_available == old(process).mutex_available,
            process.mutex_allocation == old(process).mutex_allocation,
            process.mutex_need == old(process).mutex_need,
            process.semaphore_list == old(process).semaphore_list,
            process.semaphore_available == old(process).semaphore_available,
            process.semaphore_allocation == old(process).semaphore_allocation,
            process.semaphore_need == old(process).semaphore_need,
            process.condvar_list == old(process).condvar_list,
            process.is_enable == old(process).is_enable,
            process.is_zombie == old(process).is_zombie,
            process.exit_code == old(process).exit_code,
            process.children == old(process).children,
        decreases new_tid + 1 - process.tasks@.len(),
    {
        process.tasks.push(None);
    }
    process.tasks.set(new_tid, Some(ThreadSlot { task: new_task, exit_code: None }));
    let mutex_len = process.mutex_list.len();
    let semaphore_len = process.semaphore_list.len();
    push_zero_row(&mut process.mutex_allocation, mutex_len);
    push_zero_row(&mut process.mutex_need, mutex_len);
    push_zero_row(&mut process.semaphore_allocation, semaphore_len);
    push_zero_row(&mut process.semaphore_need, semaphore_len);
    assert(process@.tasks =~= tasks_with(old(process)@.tasks, new_tid as int, new_task));
    assert(process@ =~= thread_create_spec(old(process)@, new_tid as int, new_task));
    let mut cx = TrapContext::app_init_context(entry, ustack_top, kernel_token, kstack_top, trap_handler);
    cx.x[REG_A0] = arg;
    assert(cx.x@ =~= start_registers(ustack_top, arg));
    (
        #[verifier::truncate]
        (new_tid as isize),
        cx,
    )
}

/// Get current thread id syscall: the id of the calling thread.
pub fn sys_gettid(current_tid: usize) -> (r: isize)
    ensures
        r == current_tid as isize,
{
    #[verifier::truncate]
    (current_tid as isize)
}

/// Wait for a thread to exit syscall: thread `current_tid` waits for thread
/// `tid`. A thread that does not exist gives -1, one that has not exited
/// yet -2; otherwise the thread is reaped and its exit code returned.
pub fn sys_waittid(process: &mut ProcessSync, current_tid: usize, tid: usize) -> (r: i32)
    requires
        old(process).wf(),
    ensures
        final(process).wf(),
        (final(process)@, r) == waittid_spec(old(process)@, current_tid as int, tid as int),
{
    if current_tid == tid {
        return -1;
    }
    if tid >= process.tasks.len() {
        return -1;
    }
    let mut exit_code: Option<i32> = None;
    match &process.tasks[tid] {
        Some(waited) => {
            if let Some(code) = waited.exit_code {
                exit_code = Some(code);
            }
        },
        None => {
            return -1;
        },
    }
    if let Some(code) = exit_code {
        process.tasks.set(tid, None);
        assert(process@ =~= waittid_spec(old(process)@, current_tid as int, tid as int).0);
        code
    } else {
        -2
    }
}


/// A thread that exits with a code is reaped by the next wait for it from
/// another thread, which returns that code; a wait after that finds no such
/// thread and returns -1.
pub proof fn lemma_exit_then_wait(v: ProcessSyncView, tid: int, waiter: int, code: i32)
    requires
        0 <= tid < v.tasks.len(),
        v.tasks[tid] is Some,
        waiter != tid,
    ensures
        ({
            let exited = thread_exit_spec(v, tid, code);
            let (reaped, r) = waittid_spec(exited, waiter, tid);
            &&& r == code
            &&& reaped.tasks[tid] is None
            &&& waittid_spec(reaped, waiter, tid) == (reaped, -1i32)
        }),
{
}

/// A thread just created has not exited: waiting for it returns -2 and
/// changes nothing.
pub proof fn lemma_new_thread_not_exited(v: ProcessSyncView, tid: int, task: TaskId, waiter: int)
    requires
        0 <= tid,
        waiter != tid,
    ensures
        ({
            let created = thread_create_spec(v, tid, task);
            waittid_spec(created, waiter, tid) == (created, -2i32)
        }),
{
}

/// Creating a thread keeps the process's tables and matrices fitting
/// together: each matrix gets one more row, all zeros and as wide as its
/// table, and its old rows stay as they were.
pub proof fn lemma_thread_create_wf(v: ProcessSyncView, tid: int, task: TaskId)
    requires
        view_wf(v),
        0 <= tid,
    ensures
        view_wf(thread_create_spec(v, tid, task)),
        thread_create_spec(v, tid, task).mutex_need.len() == v.mutex_need.len() + 1,
        thread_create_spec(v, tid, task).semaphore_need.len() == v.semaphore_need.len() + 1,
        thread_create_spec(v, tid, task).mutex_allocation.len() == v.mutex_allocation.len() + 1,
        thread_create_spec(v, tid, task).semaphore_allocation.len() == v.semaphore_allocation.len()
            + 1,
        forall|t: int|
            0 <= t < v.mutex_need.len() ==> #[trigger] thread_create_spec(v, tid, task).mutex_need[t]
                == v.mutex_need[t] && thread_create_spec(v, tid, task).mutex_allocation[t]
                == v.mutex_allocation[t],
        forall|t: int|
            0 <= t < v.semaphore_need.len() ==> #[trigger] thread_create_spec(
                v,
                tid,
                task,
            ).semaphore_need[t] == v.semaphore_need[t] && thread_create_spec(
                v,
                tid,
                task,
            ).semaphore_allocation[t] == v.semaphore_allocation[t],
        thread_create_spec(v, tid, task).mutex_need.last() == Seq::new(
            v.mutex_list.len(),
            |r: int| 0isize,
        ),
        thread_create_spec(v, tid, task).mutex_allocation.last() == Seq::new(
            v.mutex_list.len(),
            |r: int| 0isize,
        ),
        thread_create_spec(v, tid, task).semaphore_need.last() == Seq::new(
            v.semaphore_list.len(),
            |r: int| 0isize,
        ),
        thread_create_spec(v, tid, task).semaphore_allocation.last() == Seq::new(
            v.semaphore_list.len(),
            |r: int| 0isize,
        ),
{
}

/// A thread is only ever created at a free id, so never at the id of a
/// thread that is in the table, such as its creator's.
pub proof fn lemma_new_tid_differs(v: ProcessSyncView, new_tid: int, other: int)
    requires
        tid_free(v, new_tid),
        0 <= other < v.tasks.len(),
        v.tasks[other] is Some,
    ensures
        new_tid != other,
{
}

/// A created thread has its own slot: slot `tid` holds its task, with no
/// exit code; the table grows to reach `tid` with free slots only; every
/// other slot stays as it was.
pub proof fn lemma_thread_create_slot(v: ProcessSyncView, tid: int, task: TaskId)
    requires
        0 <= tid,
    ensures
        ({
            let t = thread_create_spec(v, tid, task).tasks;
            &&& t.len() == if tid < v.tasks.len() {
                v.tasks.len() as int
            } else {
                tid + 1
            }
            &&& t[tid] == Some(ThreadSlot { task, exit_code: None })
            &&& forall|j: int| 0 <= j < v.tasks.len() && j != tid ==> #[trigger] t[j] == v.tasks[j]
            &&& forall|j: int| v.tasks.len() <= j < t.len() && j != tid ==> #[trigger] t[j] is None
        }),
{
}

} // verus!
