//! Counting semaphore with a FIFO queue of waiting tasks.
//!
//! The semaphore only decides: `down` says whether the calling task has to
//! block, `up` says which waiting task, if any, is to be woken. Blocking and
//! waking are the scheduler's work.
use std::collections::VecDeque;
use vstd::prelude::*;

verus! {

/// A task, by the number that the scheduler knows it by.
pub type TaskId = usize;

/// Counter and queue of a semaphore.
pub struct SemaphoreInner {
    /// Units left; when negative, how many tasks wait.
    pub count: isize,
    /// Tasks blocked on the semaphore, oldest first.
    pub wait_queue: VecDeque<TaskId>,
}

/// Semaphore structure.
pub struct Semaphore {
    /// Semaphore inner.
    pub inner: SemaphoreInner,
}

/// A semaphore as its count and its queue of waiting tasks.
pub type SemaphoreView = (int, Seq<TaskId>);

impl View for Semaphore {
    type V = SemaphoreView;

    open spec fn view(&self) -> SemaphoreView {
        (self.inner.count as int, self.inner.wait_queue@)
    }
}

/// Exactly the tasks owed a unit wait: as many as the count is below zero.
pub open spec fn balanced(s: SemaphoreView) -> bool {
    s.1.len() == if s.0 < 0 {
        -s.0
    } else {
        0
    }
}

/// No more tasks wait than units are owed: at most as many as the count is
/// below zero, so a semaphore with units left has nobody waiting.
pub open spec fn waiters_owed(s: SemaphoreView) -> bool {
    s.1.len() <= if s.0 < 0 {
        -s.0
    } else {
        0
    }
}

/// The semaphore after a down by `current`, and whether `current` blocks:
/// it takes a unit, and waits at the back of the queue when none was left.
pub open spec fn after_down(s: SemaphoreView, current: TaskId) -> (SemaphoreView, bool) {
    let count = s.0 - 1;
    if count < 0 {
        ((count, s.1.push(current)), true)
    } else {
        ((count, s.1), false)
    }
}

/// The semaphore after an up, and the task to wake: it gives a unit back,
/// and when a task was owed one the oldest waiter leaves the queue.
pub open spec fn after_up(s: SemaphoreView) -> (SemaphoreView, Option<TaskId>) {
    let count = s.0 + 1;
    if count <= 0 && s.1.len() > 0 {
        ((count, s.1.drop_first()), Some(s.1[0]))
    } else {
        ((count, s.1), None)
    }
}

impl Semaphore {
    /// Create a new semaphore with `res_count` units and nobody waiting.
    pub fn new(res_count: usize) -> (s: Self)
        ensures
            s@ == (res_count as isize as int, Seq::<TaskId>::empty()),
            res_count <= isize::MAX ==> balanced(s@),
            waiters_owed(s@),
    {
        Semaphore { inner: SemaphoreInner { count: res_count as isize, wait_queue: VecDeque::new() } }
    }

    /// Whether no more tasks wait than units are owed.
    pub fn waiters_within_owed(&self) -> (ok: bool)
        ensures
            ok == waiters_owed(self@),
    {
        let n = self.inner.wait_queue.len();
        if self.inner.count < 0 {
            (n as i128) <= -(self.inner.count as i128)
        } else {
            n == 0
        }
    }

    /// Up operation (V): give a unit back; returns the waiting task to wake,
    /// if a task was owed one.
    pub fn up(&mut self) -> (woken: Option<TaskId>)
        requires
            old(self).inner.count < isize::MAX,
        ensures
            (final(self)@, woken) == after_up(old(self)@),
            balanced(old(self)@) ==> balanced(final(self)@),
            waiters_owed(old(self)@) ==> waiters_owed(final(self)@),
    {
        self.inner.count += 1;
        if self.inner.count <= 0 {
            let woken = self.inner.wait_queue.pop_front();
            proof {
                if old(self)@.1.len() > 0 {
                    assert(self@.1 =~= old(self)@.1.drop_first());
                }
            }
            woken
        } else {
            None
        }
    }

    /// Down operation (P): take a unit; when none was left, `current` joins
    /// the queue and the result says that it must block.
    pub fn down(&mut self, current: TaskId) -> (blocked: bool)
        requires
            old(self).inner.count > isize::MIN,
        ensures
            (final(self)@, blocked) == after_down(old(self)@, current),
            balanced(old(self)@) ==> balanced(final(self)@),
            waiters_owed(old(self)@) ==> waiters_owed(final(self)@),
    {
        self.inner.count -= 1;
        if self.inner.count < 0 {
            self.inner.wait_queue.push_back(current);
            true
        } else {
            false
        }
    }
}

/// A down followed by an up leaves a balanced semaphore with units to
/// spare as it was, and the up wakes the task that blocked in the down
/// exactly when the down took the last unit.
pub proof fn lemma_down_then_up(s: SemaphoreView, current: TaskId)
    requires
        balanced(s),
        s.0 >= 0,
    ensures
        after_up(after_down(s, current).0).0 == s,
        after_up(after_down(s, current).0).1 == (if s.0 == 0 {
            Some(current)
        } else {
            None
        }),
{
    if s.0 == 0 {
        assert(s.1.push(current).drop_first() =~= s.1);
    }
}

/// On a balanced semaphore, an up wakes a task exactly when the count it
/// leaves is not above zero (someone was waiting), and a down blocks
/// exactly when no unit was left.
pub proof fn lemma_wake_and_block_conditions(s: SemaphoreView, current: TaskId)
    requires
        balanced(s),
    ensures
        after_up(s).1 is Some <==> s.0 + 1 <= 0,
        after_down(s, current).1 <==> s.0 <= 0,
{
}

/// Ups and downs keep a semaphore balanced, and keep its waiters within
/// what it owes.
pub proof fn lemma_up_down_keep_balance(s: SemaphoreView, current: TaskId)
    ensures
        balanced(s) ==> balanced(after_up(s).0) && balanced(after_down(s, current).0),
        waiters_owed(s) ==> waiters_owed(after_up(s).0) && waiters_owed(after_down(s, current).0),
        balanced(s) ==> waiters_owed(s),
{
}

/// An up wakes the task that has waited longest: when a task is owed the
/// unit (the count it leaves is not above zero) and some task waits, the
/// first in the queue is woken and leaves it, and the others keep their
/// order; otherwise nobody is woken and the queue stays. Either way the
/// count grows by one.
pub proof fn lemma_up_wakes_oldest(s: SemaphoreView)
    ensures
        after_up(s).0.0 == s.0 + 1,
        s.0 + 1 <= 0 && s.1.len() > 0 ==> after_up(s).1 == Some(s.1[0]) && after_up(s).0.1.len()
            == s.1.len() - 1 && forall|k: int|
            0 <= k < s.1.len() - 1 ==> #[trigger] after_up(s).0.1[k] == s.1[k + 1],
        !(s.0 + 1 <= 0 && s.1.len() > 0) ==> after_up(s).1 is None && after_up(s).0.1 == s.1,
{
}

/// A down that blocks puts the caller at the back of the queue, behind
/// everyone already waiting; one that does not leaves the queue alone.
/// Either way the count shrinks by one.
pub proof fn lemma_down_queues_last(s: SemaphoreView, current: TaskId)
    ensures
        after_down(s, current).0.0 == s.0 - 1,
        after_down(s, current).1 ==> after_down(s, current).0.1.len() == s.1.len() + 1
            && after_down(s, current).0.1[s.1.len() as int] == current && forall|k: int|
            0 <= k < s.1.len() ==> #[trigger] after_down(s, current).0.1[k] == s.1[k],
        !after_down(s, current).1 ==> after_down(s, current).0.1 == s.1,
{
}

/// Tasks are woken in the order they blocked: on a semaphore with no unit
/// left and nobody waiting, downs by `a` and then `b` both block, the next
/// up wakes `a`, the one after it `b`, and the semaphore is as it was.
pub proof fn lemma_semaphore_fifo(s: SemaphoreView, a: TaskId, b: TaskId)
    requires
        s.0 == 0,
        s.1.len() == 0,
    ensures
        ({
            let (s1, blocked_a) = after_down(s, a);
            let (s2, blocked_b) = after_down(s1, b);
            let (s3, first) = after_up(s2);
            let (s4, second) = after_up(s3);
            &&& blocked_a && blocked_b
            &&& first == Some(a)
            &&& second == Some(b)
            &&& s4 == s
        }),
{
    let s2 = after_down(after_down(s, a).0, b).0;
    assert(s2.1 =~= seq![a, b]);
    assert(after_up(after_up(s2).0).0.1 =~= s.1);
}

} // verus!
