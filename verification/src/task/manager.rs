//! The ready queue and its stride scheduling.
use crate::sync::semaphore::TaskId;
use vstd::prelude::*;

verus! {

/// What one scheduling round adds to a task's stride, divided by its
/// priority.
pub const BIG_STRIDE: usize = 256;

/// A ready task with the scheduling state that the queue orders it by.
#[derive(Clone, Copy, PartialEq, Eq, Structural, Debug)]
pub struct SchedEntry {
    /// The task.
    pub task: TaskId,
    /// How far the task has advanced; the smallest runs next.
    pub stride: usize,
    /// The task's priority: a higher one makes its stride grow slower.
    pub priority: usize,
}

/// The ready queue of tasks.
pub struct TaskManager {
    /// Ready tasks in the order they were added.
    pub ready_queue: Vec<SchedEntry>,
}

impl View for TaskManager {
    type V = Seq<SchedEntry>;

    open spec fn view(&self) -> Seq<SchedEntry> {
        self.ready_queue@
    }
}

/// `k` is the first position of a smallest stride in `queue`.
pub open spec fn is_first_min(queue: Seq<SchedEntry>, k: int) -> bool {
    &&& 0 <= k < queue.len()
    &&& forall|j: int| 0 <= j < queue.len() ==> queue[k].stride <= #[trigger] queue[j].stride
    &&& forall|j: int| 0 <= j < k ==> queue[k].stride < #[trigger] queue[j].stride
}

/// `e` after one more scheduling round: its stride grows by
/// `BIG_STRIDE / priority`.
pub open spec fn advanced(e: SchedEntry) -> SchedEntry {
    SchedEntry { stride: (e.stride + BIG_STRIDE / e.priority) as usize, ..e }
}

/// The picked entry can take one more round: its priority is not zero and
/// its stride does not overflow.
pub open spec fn can_advance(e: SchedEntry) -> bool {
    e.priority != 0 && e.stride + BIG_STRIDE / e.priority <= usize::MAX
}

/// A smallest stride has only one first position.
pub proof fn lemma_first_min_unique(queue: Seq<SchedEntry>, a: int, b: int)
    requires
        is_first_min(queue, a),
        is_first_min(queue, b),
    ensures
        a == b,
{
    if a < b {
        assert(queue[b].stride < queue[a].stride);
    } else if b < a {
        assert(queue[a].stride < queue[b].stride);
    }
}

impl TaskManager {
    /// Create an empty TaskManager.
    pub fn new() -> (m: Self)
        ensures
            m@ == Seq::<SchedEntry>::empty(),
    {
        TaskManager { ready_queue: Vec::new() }
    }

    /// Add a task at the back of the ready queue.
    pub fn add(&mut self, task: SchedEntry)
        ensures
            final(self)@ == old(self)@.push(task),
    {
        self.ready_queue.push(task);
    }

    /// The position of the task that `fetch` takes out next: the first
    /// with the smallest stride; `None` when no task is ready.
    pub fn next_index(&self) -> (index: Option<usize>)
        ensures
            self@.len() == 0 ==> index is None,
            self@.len() > 0 ==> (index matches Some(k) && is_first_min(self@, k as int)),
    {
        let l = self.ready_queue.len();
        if l == 0 {
            return None;
        }
        let mut index: usize = 0;
        let mut i: usize = 0;
        while i < l
            invariant
                l == self.ready_queue.len(),
                i <= l,
                index < l,
                index <= i,
                forall|j: int| 0 <= j < i ==> self@[index as int].stride <= #[trigger] self@[j].stride,
                forall|j: int| 0 <= j < index ==> self@[index as int].stride < #[trigger] self@[j].stride,
            decreases l - i,
        {
            if self.ready_queue[i].stride < self.ready_queue[index].stride {
                index = i;
            }
            i += 1;
        }
        Some(index)
    }

    /// Take out the first task with the smallest stride, its stride advanced
    /// by one round; `None` when no task is ready.
    pub fn fetch(&mut self) -> (next: Option<SchedEntry>)
        requires
            forall|k: int| is_first_min(old(self)@, k) ==> can_advance(#[trigger] old(self)@[k]),
        ensures
            old(self)@.len() == 0 ==> next is None && final(self)@ == old(self)@,
            old(self)@.len() > 0 ==> exists|k: int|
                #![trigger old(self)@[k]]
                is_first_min(old(self)@, k) && next == Some(advanced(old(self)@[k]))
                    && final(self)@ == old(self)@.remove(k),
    {
        match self.next_index() {
            None => None,
            Some(index) => {
                let mut picked = self.ready_queue.remove(index);
                picked.stride = picked.stride + BIG_STRIDE / picked.priority;
                Some(picked)
            },
        }
    }
}

/// Among tasks of equal stride the queue is first in, first out: when every
/// stride is the same, `fetch` takes the task that was added first.
pub proof fn lemma_equal_strides_fifo(queue: Seq<SchedEntry>, k: int)
    requires
        is_first_min(queue, k),
        forall|j: int| 0 <= j < queue.len() ==> #[trigger] queue[j].stride == queue[0].stride,
    ensures
        k == 0,
{
    if k > 0 {
        assert(queue[k].stride < queue[0].stride);
    }
}

/// A fetched task keeps its id and priority, and its stride grows by
/// `BIG_STRIDE` divided by its priority; so a task of higher priority
/// advances by no more than one of lower priority.
pub proof fn lemma_advance_by_priority(e: SchedEntry, f: SchedEntry)
    requires
        can_advance(e),
        can_advance(f),
        e.priority >= f.priority,
    ensures
        advanced(e).task == e.task,
        advanced(e).priority == e.priority,
        advanced(e).stride == e.stride + 256usize / e.priority,
        advanced(e).stride - e.stride <= advanced(f).stride - f.stride,
{
    assert(256usize / e.priority <= 256usize / f.priority) by (nonlinear_arith)
        requires
            e.priority >= f.priority,
            f.priority > 0,
    ;
}

} // verus!
