//! The synchronisation and thread bookkeeping of one process: its mutex,
//! semaphore and condition-variable tables, the banker's matrices over
//! mutexes and over semaphores, its table of threads, and its exit state.
//!
//! Rows of the matrices are threads, columns are resources: `available[r]`
//! counts the free units of resource `r`, `allocation[t][r]` the units that
//! thread `t` holds, `need[t][r]` the units it waits for.
use crate::sync::condvar::Condvar;
use crate::sync::mutex::{mutex_consistent, Mutex, MutexView};
use crate::sync::semaphore::{waiters_owed, Semaphore, SemaphoreView, TaskId};
use crate::task::banker::matrix_view;
use vstd::prelude::*;

verus! {

/// A thread of the process: its task, and its exit code once it exited.
#[derive(Clone, Copy, PartialEq, Eq, Structural, Debug)]
pub struct ThreadSlot {
    /// The task that runs the thread.
    pub task: TaskId,
    /// The exit code, once the thread has exited.
    pub exit_code: Option<i32>,
}

/// The synchronisation and thread state of a process.
pub struct ProcessSync {
    /// Mutex table; `None` marks a free id.
    pub mutex_list: Vec<Option<Mutex>>,
    /// Free units of each mutex.
    pub mutex_available: Vec<isize>,
    /// Units of each mutex that each thread holds.
    pub mutex_allocation: Vec<Vec<isize>>,
    /// Units of each mutex that each thread waits for.
    pub mutex_need: Vec<Vec<isize>>,
    /// Semaphore table; `None` marks a free id.
    pub semaphore_list: Vec<Option<Semaphore>>,
    /// Free units of each semaphore.
    pub semaphore_available: Vec<isize>,
    /// Units of each semaphore that each thread holds.
    pub semaphore_allocation: Vec<Vec<isize>>,
    /// Units of each semaphore that each thread waits for.
    pub semaphore_need: Vec<Vec<isize>>,
    /// Condition-variable table; `None` marks a free id.
    pub condvar_list: Vec<Option<Condvar>>,
    /// Deadlock detection: lock and down requests are checked when it is
    /// not zero.
    pub is_enable: usize,
    /// Thread table, by thread id; `None` marks a free or reaped id.
    pub tasks: Vec<Option<ThreadSlot>>,
    /// The process has exited and waits to be reaped by its parent.
    pub is_zombie: bool,
    /// The exit code of the process, once it has exited.
    pub exit_code: i32,
    /// The ids of the process's child processes.
    pub children: Vec<usize>,
}

/// A process's synchronisation and thread state as mathematical values.
#[verifier::ext_equal]
pub struct ProcessSyncView {
    /// Mutex table, each mutex as its kind, whether held, and its queue.
    pub mutex_list: Seq<Option<MutexView>>,
    /// Free units of each mutex.
    pub mutex_available: Seq<isize>,
    /// Mutex allocation matrix, one row per thread.
    pub mutex_allocation: Seq<Seq<isize>>,
    /// Mutex need matrix, one row per thread.
    pub mutex_need: Seq<Seq<isize>>,
    /// Semaphore table, each semaphore as its count and queue.
    pub semaphore_list: Seq<Option<SemaphoreView>>,
    /// Free units of each semaphore.
    pub semaphore_available: Seq<isize>,
    /// Semaphore allocation matrix, one row per thread.
    pub semaphore_allocation: Seq<Seq<isize>>,
    /// Semaphore need matrix, one row per thread.
    pub semaphore_need: Seq<Seq<isize>>,
    /// Condition-variable table, each as its queue of waiters.
    pub condvar_list: Seq<Option<Seq<TaskId>>>,
    /// The deadlock-detection flag.
    pub is_enable: usize,
    /// Thread table.
    pub tasks: Seq<Option<ThreadSlot>>,
    /// The process has exited.
    pub is_zombie: bool,
    /// The process's exit code.
    pub exit_code: i32,
    /// Child process ids.
    pub children: Seq<usize>,
}

/// The semaphore table as views.
pub open spec fn semaphores_view(list: Seq<Option<Semaphore>>) -> Seq<Option<SemaphoreView>> {
    Seq::new(
        list.len(),
        |k: int|
            match list[k] {
                Some(s) => Some(s@),
                None => None,
            },
    )
}

/// The mutex table as views.
pub open spec fn mutexes_view(list: Seq<Option<Mutex>>) -> Seq<Option<MutexView>> {
    Seq::new(
        list.len(),
        |k: int|
            match list[k] {
                Some(m) => Some(m@),
                None => None,
            },
    )
}

/// The condition-variable table as views.
pub open spec fn condvars_view(list: Seq<Option<Condvar>>) -> Seq<Option<Seq<TaskId>>> {
    Seq::new(
        list.len(),
        |k: int|
            match list[k] {
                Some(c) => Some(c@),
                None => None,
            },
    )
}

impl View for ProcessSync {
    type V = ProcessSyncView;

    open spec fn view(&self) -> ProcessSyncView {
        ProcessSyncView {
            mutex_list: mutexes_view(self.mutex_list@),
            mutex_available: self.mutex_available@,
            mutex_allocation: matrix_view(&self.mutex_allocation),
            mutex_need: matrix_view(&self.mutex_need),
            semaphore_list: semaphores_view(self.semaphore_list@),
            semaphore_available: self.semaphore_available@,
            semaphore_allocation: matrix_view(&self.semaphore_allocation),
            semaphore_need: matrix_view(&self.semaphore_need),
            condvar_list: condvars_view(self.condvar_list@),
            is_enable: self.is_enable,
            tasks: self.tasks@,
            is_zombie: self.is_zombie,
            exit_code: self.exit_code,
            children: self.children@,
        }
    }
}

/// A matrix with `rows` rows, each `width` wide.
pub open spec fn shaped(m: Seq<Seq<isize>>, rows: int, width: int) -> bool {
    &&& m.len() == rows
    &&& forall|t: int| 0 <= t < m.len() ==> #[trigger] m[t].len() == width
}

/// The tables and matrices of a process fit together: one counter and one
/// column per table entry, and as many need rows as allocation rows; only
/// a held blocking mutex has waiters, and no semaphore has more waiters
/// than units owed.
pub open spec fn view_wf(v: ProcessSyncView) -> bool {
    &&& forall|i: int|
        0 <= i < v.mutex_list.len() && #[trigger] v.mutex_list[i] is Some ==> mutex_consistent(
            v.mutex_list[i]->Some_0,
        )
    &&& forall|i: int|
        0 <= i < v.semaphore_list.len() && #[trigger] v.semaphore_list[i] is Some
            ==> waiters_owed(v.semaphore_list[i]->Some_0)
    &&& v.mutex_available.len() == v.mutex_list.len()
    &&& shaped(v.mutex_allocation, v.mutex_need.len() as int, v.mutex_list.len() as int)
    &&& shaped(v.mutex_need, v.mutex_need.len() as int, v.mutex_list.len() as int)
    &&& v.semaphore_available.len() == v.semaphore_list.len()
    &&& shaped(
        v.semaphore_allocation,
        v.semaphore_need.len() as int,
        v.semaphore_list.len() as int,
    )
    &&& shaped(v.semaphore_need, v.semaphore_need.len() as int, v.semaphore_list.len() as int)
}

impl ProcessSync {
    /// The tables and matrices fit together.
    pub open spec fn wf(&self) -> bool {
        view_wf(self@)
    }
}

/// The first free slot at `k` or after it, or the table's length when
/// there is none.
pub open spec fn first_free<T>(slots: Seq<Option<T>>, k: int) -> int
    decreases slots.len() - k,
{
    if k < 0 || k >= slots.len() {
        slots.len() as int
    } else if slots[k] is None {
        k
    } else {
        first_free(slots, k + 1)
    }
}

/// Two tables with free slots at the same places have the same first free
/// slot.
pub proof fn lemma_first_free_same_slots<T, U>(a: Seq<Option<T>>, b: Seq<Option<U>>, k: int)
    requires
        a.len() == b.len(),
        forall|i: int| 0 <= i < a.len() ==> (#[trigger] a[i] is None <==> b[i] is None),
        0 <= k,
    ensures
        first_free(a, k) == first_free(b, k),
    decreases a.len() - k,
{
    if k < a.len() {
        lemma_first_free_same_slots(a, b, k + 1);
    }
}

/// `m` with `v` appended to every row.
pub open spec fn column_pushed(m: Seq<Seq<isize>>, v: isize) -> Seq<Seq<isize>> {
    Seq::new(m.len(), |t: int| m[t].push(v))
}

/// `m` with a row of `width` zeros appended.
pub open spec fn zero_row_pushed(m: Seq<Seq<isize>>, width: int) -> Seq<Seq<isize>> {
    m.push(Seq::new(width as nat, |r: int| 0isize))
}

/// `m` with row `row` all zeros.
pub open spec fn row_zeroed(m: Seq<Seq<isize>>, row: int) -> Seq<Seq<isize>> {
    m.update(row, Seq::new(m[row].len(), |r: int| 0isize))
}

/// `m` with `delta` added at `(row, col)`.
pub open spec fn bumped(m: Seq<Seq<isize>>, row: int, col: int, delta: int) -> Seq<Seq<isize>> {
    m.update(row, m[row].update(col, (m[row][col] + delta) as isize))
}

/// `v` with `delta` added at `i`.
pub open spec fn counter_bumped(v: Seq<isize>, i: int, delta: int) -> Seq<isize> {
    v.update(i, (v[i] + delta) as isize)
}

/// Adding `delta` at `(row, col)` of `m` stays in range.
pub open spec fn bump_fits(m: Seq<Seq<isize>>, row: int, col: int, delta: int) -> bool {
    &&& 0 <= row < m.len()
    &&& 0 <= col < m[row].len()
    &&& isize::MIN <= m[row][col] + delta <= isize::MAX
}

/// Adding `delta` at `i` of `v` stays in range.
pub open spec fn counter_fits(v: Seq<isize>, i: int, delta: int) -> bool {
    &&& 0 <= i < v.len()
    &&& isize::MIN <= v[i] + delta <= isize::MAX
}

/// The slot index of a first free slot.
pub fn find_free_slot<T>(slots: &Vec<Option<T>>) -> (id: usize)
    ensures
        id == first_free(slots@, 0),
        id <= slots@.len(),
        forall|j: int| 0 <= j < id ==> #[trigger] slots@[j] is Some,
        id < slots@.len() ==> slots@[id as int] is None,
{
    let mut k: usize = 0;
    while k < slots.len()
        invariant
            k <= slots@.len(),
            first_free(slots@, 0) == first_free(slots@, k as int),
            forall|j: int| 0 <= j < k ==> #[trigger] slots@[j] is Some,
        decreases slots@.len() - k,
    {
        if slots[k].is_none() {
            return k;
        }
        k += 1;
    }
    k
}

/// Append `v` to every row of `m`.
pub fn push_column(m: &mut Vec<Vec<isize>>, v: isize)
    ensures
        matrix_view(final(m)) == column_pushed(matrix_view(old(m)), v),
{
    let n = m.len();
    let mut t: usize = 0;
    while t < n
        invariant
            t <= n,
            n == m@.len(),
            n == old(m)@.len(),
            forall|q: int| 0 <= q < t ==> #[trigger] m@[q]@ == old(m)@[q]@.push(v),
            forall|q: int| t <= q < n ==> #[trigger] m@[q] == old(m)@[q],
        decreases n - t,
    {
        m[t].push(v);
        t += 1;
    }
    assert(matrix_view(m) =~= column_pushed(matrix_view(old(m)), v));
}

/// Append a row of `width` zeros to `m`.
pub fn push_zero_row(m: &mut Vec<Vec<isize>>, width: usize)
    ensures
        matrix_view(final(m)) == zero_row_pushed(matrix_view(old(m)), width as int),
{
    let mut row: Vec<isize> = Vec::new();
    let mut r: usize = 0;
    while r < width
        invariant
            r <= width,
            row@ == Seq::new(r as nat, |q: int| 0isize),
        decreases width - r,
    {
        row.push(0);
        r += 1;
        assert(row@ =~= Seq::new(r as nat, |q: int| 0isize));
    }
    m.push(row);
    assert(matrix_view(m) =~= zero_row_pushed(matrix_view(old(m)), width as int));
}

/// Set every entry of row `row` of `m` to zero.
pub fn zero_row(m: &mut Vec<Vec<isize>>, row: usize)
    requires
        row < old(m)@.len(),
    ensures
        matrix_view(final(m)) == row_zeroed(matrix_view(old(m)), row as int),
        final(m)@.len() == old(m)@.len(),
{
    let w = m[row].len();
    let mut r: usize = 0;
    while r < w
        invariant
            r <= w,
            row < m@.len(),
            m@.len() == old(m)@.len(),
            w == m@[row as int]@.len(),
            w == old(m)@[row as int]@.len(),
            forall|q: int| 0 <= q < r ==> #[trigger] m@[row as int]@[q] == 0,
            forall|t: int| 0 <= t < m@.len() && t != row ==> #[trigger] m@[t] == old(m)@[t],
        decreases w - r,
    {
        m[row][r] = 0;
        r += 1;
    }
    assert(m@[row as int]@ =~= Seq::new(w as nat, |q: int| 0isize));
    assert(matrix_view(m) =~= row_zeroed(matrix_view(old(m)), row as int));
}

/// Add `delta` to entry `(row, col)` of `m`.
pub fn bump(m: &mut Vec<Vec<isize>>, row: usize, col: usize, delta: isize)
    requires
        bump_fits(matrix_view(old(m)), row as int, col as int, delta as int),
    ensures
        matrix_view(final(m)) == bumped(matrix_view(old(m)), row as int, col as int, delta as int),
{
    m[row][col] = m[row][col] + delta;
    assert(m@[row as int]@ =~= old(m)@[row as int]@.update(
        col as int,
        (old(m)@[row as int]@[col as int] + delta) as isize,
    ));
    assert(matrix_view(m) =~= bumped(matrix_view(old(m)), row as int, col as int, delta as int));
}

/// Add `delta` to entry `i` of `v`.
pub fn bump_counter(v: &mut Vec<isize>, i: usize, delta: isize)
    requires
        counter_fits(old(v)@, i as int, delta as int),
    ensures
        final(v)@ == counter_bumped(old(v)@, i as int, delta as int),
{
    let x = v[i] + delta;
    v.set(i, x);
}


/// The tasks of the threads in a thread table, in table order.
pub open spec fn present_tasks(tasks: Seq<Option<ThreadSlot>>) -> Seq<TaskId>
    decreases tasks.len(),
{
    if tasks.len() == 0 {
        Seq::empty()
    } else {
        let front = present_tasks(tasks.drop_last());
        match tasks.last() {
            Some(slot) => front.push(slot.task),
            None => front,
        }
    }
}

/// Thread `tid` exits with `exit_code`: its slot records the code, and its
/// rows of mutex allocation, mutex need and semaphore allocation are zeroed
/// (its semaphore need row is left as it was). When it is the main thread,
/// thread 0, the process becomes a zombie with that exit code.
pub open spec fn thread_exit_spec(v: ProcessSyncView, tid: int, exit_code: i32) -> ProcessSyncView {
    ProcessSyncView {
        tasks: match v.tasks[tid] {
            Some(slot) => if 0 <= tid < v.tasks.len() {
                v.tasks.update(tid, Some(ThreadSlot { exit_code: Some(exit_code), ..slot }))
            } else {
                v.tasks
            },
            None => v.tasks,
        },
        mutex_allocation: row_zeroed(v.mutex_allocation, tid),
        mutex_need: row_zeroed(v.mutex_need, tid),
        semaphore_allocation: row_zeroed(v.semaphore_allocation, tid),
        is_zombie: if tid == 0 {
            true
        } else {
            v.is_zombie
        },
        exit_code: if tid == 0 {
            exit_code
        } else {
            v.exit_code
        },
        ..v
    }
}

impl ProcessSync {
    /// The state of a new process whose main thread, thread 0, is run by
    /// `main_task`: no mutex, semaphore or condition variable yet, and one
    /// (empty) row per matrix for the main thread.
    pub fn new(main_task: TaskId) -> (p: Self)
        ensures
            p.wf(),
            p@.mutex_list.len() == 0,
            p@.semaphore_list.len() == 0,
            p@.condvar_list.len() == 0,
            p@.mutex_allocation == seq![Seq::<isize>::empty()],
            p@.mutex_need == seq![Seq::<isize>::empty()],
            p@.semaphore_allocation == seq![Seq::<isize>::empty()],
            p@.semaphore_need == seq![Seq::<isize>::empty()],
            p@.is_enable == 0,
            p@.tasks == seq![Some(ThreadSlot { task: main_task, exit_code: None })],
            !p@.is_zombie,
            p@.exit_code == 0,
            p@.children.len() == 0,
    {
        let mut tasks: Vec<Option<ThreadSlot>> = Vec::new();
        tasks.push(Some(ThreadSlot { task: main_task, exit_code: None }));
        let mut mutex_allocation: Vec<Vec<isize>> = Vec::new();
        mutex_allocation.push(Vec::new());
        let mut mutex_need: Vec<Vec<isize>> = Vec::new();
        mutex_need.push(Vec::new());
        let mut semaphore_allocation: Vec<Vec<isize>> = Vec::new();
        semaphore_allocation.push(Vec::new());
        let mut semaphore_need: Vec<Vec<isize>> = Vec::new();
        semaphore_need.push(Vec::new());
        let p = ProcessSync {
            mutex_list: Vec::new(),
            mutex_available: Vec::new(),
            mutex_allocation,
            mutex_need,
            semaphore_list: Vec::new(),
            semaphore_available: Vec::new(),
            semaphore_allocation,
            semaphore_need,
            condvar_list: Vec::new(),
            is_enable: 0,
            tasks,
            is_zombie: false,
            exit_code: 0,
            children: Vec::new(),
        };
        assert(p@.mutex_allocation =~= seq![Seq::<isize>::empty()]);
        assert(p@.mutex_need =~= seq![Seq::<isize>::empty()]);
        assert(p@.semaphore_allocation =~= seq![Seq::<isize>::empty()]);
        assert(p@.semaphore_need =~= seq![Seq::<isize>::empty()]);
        assert(p@.tasks =~= seq![Some(ThreadSlot { task: main_task, exit_code: None })]);
        p
    }

    /// Thread `tid` exits with `exit_code`: record the code in its slot and
    /// clear what it holds and waits for. Returns whether it is the main
    /// thread, whose exit ends the whole process and makes it a zombie with
    /// that exit code.
    pub fn record_thread_exit(&mut self, tid: usize, exit_code: i32) -> (main: bool)
        requires
            old(self).wf(),
            tid < old(self).mutex_need@.len(),
            tid < old(self).semaphore_need@.len(),
        ensures
            final(self).wf(),
            final(self)@ == thread_exit_spec(old(self)@, tid as int, exit_code),
            main == (tid == 0),
    {
        if tid < self.tasks.len() {
            match self.tasks[tid] {
                Some(slot) => {
                    self.tasks.set(tid, Some(ThreadSlot { exit_code: Some(exit_code), ..slot }));
                },
                None => {},
            }
        }
        zero_row(&mut self.mutex_allocation, tid);
        zero_row(&mut self.mutex_need, tid);
        zero_row(&mut self.semaphore_allocation, tid);
        zero_row(&mut self.mutex_need, tid);
        if tid == 0 {
            self.is_zombie = true;
            self.exit_code = exit_code;
        }
        assert(row_zeroed(row_zeroed(old(self)@.mutex_need, tid as int), tid as int)
            =~= row_zeroed(old(self)@.mutex_need, tid as int));
        assert(self@ =~= thread_exit_spec(old(self)@, tid as int, exit_code));
        tid == 0
    }

    /// The process ends: empty its thread table, and return the tasks that
    /// were in it, in table order, for the scheduler to drop.
    pub fn reap_all_threads(&mut self) -> (reaped: Vec<TaskId>)
        requires
            old(self).wf(),
        ensures
            final(self).wf(),
            final(self)@ == (ProcessSyncView { tasks: Seq::empty(), ..old(self)@ }),
            reaped@ == present_tasks(old(self)@.tasks),
    {
        let mut reaped: Vec<TaskId> = Vec::new();
        let mut k: usize = 0;
        while k < self.tasks.len()
            invariant
                k <= self.tasks@.len(),
                self.tasks@ == old(self).tasks@,
                reaped@ == present_tasks(self.tasks@.take(k as int)),
            decreases self.tasks@.len() - k,
        {
            assert(self.tasks@.take(k + 1).drop_last() =~= self.tasks@.take(k as int));
            match self.tasks[k] {
                Some(slot) => reaped.push(slot.task),
                None => {},
            }
            k += 1;
        }
        assert(self.tasks@.take(k as int) =~= self.tasks@);
        self.tasks = Vec::new();
        assert(self@ =~= (ProcessSyncView { tasks: Seq::empty(), ..old(self)@ }));
        reaped
    }

    /// The process has exited: its children move to `init`, at the end of
    /// its list of children, and it keeps none.
    pub fn hand_children_to(&mut self, init: &mut ProcessSync)
        requires
            old(self).wf(),
            old(init).wf(),
        ensures
            final(self).wf(),
            final(init).wf(),
            final(self)@ == (ProcessSyncView { children: Seq::empty(), ..old(self)@ }),
            final(init)@ == (ProcessSyncView {
                children: old(init)@.children + old(self)@.children,
                ..old(init)@
            }),
    {
        let mut k: usize = 0;
        while k < self.children.len()
            invariant
                k <= self.children@.len(),
                self.children@ == old(self).children@,
                init.children@ == old(init).children@ + self.children@.take(k as int),
                init.mutex_list == old(init).mutex_list,
                init.mutex_available == old(init).mutex_available,
                init.mutex_allocation == old(init).mutex_allocation,
                init.mutex_need == old(init).mutex_need,
                init.semaphore_list == old(init).semaphore_list,
                init.semaphore_available == old(init).semaphore_available,
                init.semaphore_allocation == old(init).semaphore_allocation,
                init.semaphore_need == old(init).semaphore_need,
                init.condvar_list == old(init).condvar_list,
                init.is_enable == old(init).is_enable,
                init.tasks == old(init).tasks,
                init.is_zombie == old(init).is_zombie,
                init.exit_code == old(init).exit_code,
            decreases self.children@.len() - k,
        {
            let child = self.children[k];
            init.children.push(child);
            k += 1;
            assert(init.children@ =~= old(init).children@ + self.children@.take(k as int));
        }
        assert(self.children@.take(k as int) =~= self.children@);
        self.children = Vec::new();
        assert(self@ =~= (ProcessSyncView { children: Seq::empty(), ..old(self)@ }));
        assert(init@ =~= (ProcessSyncView {
            children: old(init)@.children + old(self)@.children,
            ..old(init)@
        }));
    }

    /// The id for a new thread: the lowest free slot of the thread table,
    /// or the table's length when none is free.
    pub fn free_tid(&self) -> (tid: usize)
        ensures
            tid == first_free(self@.tasks, 0),
            tid <= self@.tasks.len(),
            tid < self@.tasks.len() ==> self@.tasks[tid as int] is None,
    {
        find_free_slot(&self.tasks)
    }

    /// Whether the tables and matrices fit together: what every call that
    /// takes the process requires.
    pub fn is_wf(&self) -> (ok: bool)
        ensures
            ok == self.wf(),
    {
        let ml = self.mutex_list.len();
        let sl = self.semaphore_list.len();
        if self.mutex_available.len() != ml || self.semaphore_available.len() != sl {
            return false;
        }
        if self.mutex_allocation.len() != self.mutex_need.len() || self.semaphore_allocation.len()
            != self.semaphore_need.len() {
            return false;
        }
        if !(matrix_has_width(&self.mutex_allocation, ml) && matrix_has_width(&self.mutex_need, ml)
            && matrix_has_width(&self.semaphore_allocation, sl) && matrix_has_width(
            &self.semaphore_need,
            sl,
        )) {
            return false;
        }
        let mut i: usize = 0;
        while i < ml
            invariant
                i <= ml,
                ml == self.mutex_list@.len(),
                forall|j: int|
                    0 <= j < i && #[trigger] self@.mutex_list[j] is Some ==> mutex_consistent(
                        self@.mutex_list[j]->Some_0,
                    ),
            decreases ml - i,
        {
            match &self.mutex_list[i] {
                Some(m) => {
                    if !m.is_consistent() {
                        assert(self@.mutex_list[i as int] is Some);
                        return false;
                    }
                },
                None => {},
            }
            i += 1;
        }
        let mut i: usize = 0;
        while i < sl
            invariant
                i <= sl,
                sl == self.semaphore_list@.len(),
                forall|j: int|
                    0 <= j < i && #[trigger] self@.semaphore_list[j] is Some ==> waiters_owed(
                        self@.semaphore_list[j]->Some_0,
                    ),
            decreases sl - i,
        {
            match &self.semaphore_list[i] {
                Some(s) => {
                    if !s.waiters_within_owed() {
                        assert(self@.semaphore_list[i as int] is Some);
                        return false;
                    }
                },
                None => {},
            }
            i += 1;
        }
        true
    }
}
/// Whether every row of `m` is `width` long.
pub fn matrix_has_width(m: &Vec<Vec<isize>>, width: usize) -> (ok: bool)
    ensures
        ok == shaped(matrix_view(m), m@.len() as int, width as int),
{
    let mut t: usize = 0;
    while t < m.len()
        invariant
            t <= m@.len(),
            forall|q: int| 0 <= q < t ==> #[trigger] m@[q]@.len() == width,
        decreases m@.len() - t,
    {
        if m[t].len() != width {
            assert(matrix_view(m)[t as int].len() != width);
            return false;
        }
        t += 1;
    }
    assert forall|q: int| 0 <= q < matrix_view(m).len() implies #[trigger] matrix_view(m)[q].len()
        == width by {
        assert(m@[q]@.len() == width);
    }
    true
}

/// A thread's exit records its code in its slot and clears what it holds
/// of every mutex and semaphore and what it waits for of every mutex, and
/// touches no other thread's rows; the main thread's exit makes the process
/// a zombie with that code, and no other thread's exit changes either.
pub proof fn lemma_thread_exit(v: ProcessSyncView, tid: int, code: i32)
    requires
        view_wf(v),
        0 <= tid < v.mutex_need.len(),
        0 <= tid < v.semaphore_need.len(),
    ensures
        ({
            let after = thread_exit_spec(v, tid, code);
            &&& forall|r: int|
                0 <= r < v.mutex_list.len() ==> #[trigger] after.mutex_allocation[tid][r] == 0
                    && after.mutex_need[tid][r] == 0
            &&& forall|r: int|
                0 <= r < v.semaphore_list.len() ==> #[trigger] after.semaphore_allocation[tid][r]
                    == 0
            &&& after.semaphore_need == v.semaphore_need
            &&& forall|t: int|
                0 <= t < v.mutex_need.len() && t != tid ==> #[trigger] after.mutex_allocation[t]
                    == v.mutex_allocation[t] && after.mutex_need[t] == v.mutex_need[t]
            &&& forall|t: int|
                0 <= t < v.semaphore_need.len() && t != tid
                    ==> #[trigger] after.semaphore_allocation[t] == v.semaphore_allocation[t]
            &&& (0 <= tid < v.tasks.len() && v.tasks[tid] is Some ==> after.tasks[tid] == Some(
                ThreadSlot { task: v.tasks[tid]->Some_0.task, exit_code: Some(code) },
            ))
            &&& (tid == 0 ==> after.is_zombie && after.exit_code == code)
            &&& (tid != 0 ==> after.is_zombie == v.is_zombie && after.exit_code == v.exit_code)
            &&& after.mutex_available == v.mutex_available
            &&& after.semaphore_available == v.semaphore_available
        }),
{
}

/// The reaped tasks are exactly the tasks of the occupied slots, one per
/// occupied slot, and the task of the last occupied slot comes last.
pub proof fn lemma_present_tasks(tasks: Seq<Option<ThreadSlot>>)
    ensures
        present_tasks(tasks).len() <= tasks.len(),
        forall|x: TaskId|
            #![trigger present_tasks(tasks).contains(x)]
            present_tasks(tasks).contains(x) <==> exists|i: int|
                0 <= i < tasks.len() && #[trigger] tasks[i] is Some && tasks[i]->Some_0.task == x,
        tasks.len() > 0 && tasks.last() is Some ==> present_tasks(tasks).len() > 0
            && present_tasks(tasks).last() == tasks.last()->Some_0.task,
    decreases tasks.len(),
{
    if tasks.len() > 0 {
        let front = tasks.drop_last();
        lemma_present_tasks(front);
        let p = present_tasks(tasks);
        let pf = present_tasks(front);
        assert forall|x: TaskId| p.contains(x) <==> exists|i: int|
            0 <= i < tasks.len() && #[trigger] tasks[i] is Some && tasks[i]->Some_0.task == x by {
            if p.contains(x) {
                let k = choose|k: int| 0 <= k < p.len() && p[k] == x;
                if k < pf.len() {
                    assert(pf[k] == x);
                    assert(pf.contains(x));
                    let i = choose|i: int|
                        0 <= i < front.len() && #[trigger] front[i] is Some && front[i]->Some_0.task
                            == x;
                    assert(tasks[i] == front[i]);
                } else {
                    let i = tasks.len() - 1;
                    assert(tasks[i] is Some && tasks[i]->Some_0.task == x);
                }
            }
            if exists|i: int|
                0 <= i < tasks.len() && #[trigger] tasks[i] is Some && tasks[i]->Some_0.task == x {
                let i = choose|i: int|
                    0 <= i < tasks.len() && #[trigger] tasks[i] is Some && tasks[i]->Some_0.task == x;
                if i < tasks.len() - 1 {
                    assert(front[i] == tasks[i]);
                    assert(pf.contains(x));
                    let k = choose|k: int| 0 <= k < pf.len() && pf[k] == x;
                    assert(p[k] == x);
                } else {
                    assert(p[p.len() - 1] == x);
                }
            }
        }
    }
}

} // verus!
