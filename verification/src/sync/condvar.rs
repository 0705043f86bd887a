//! Condition variables: a FIFO queue of tasks waiting to be signalled.
use crate::sync::mutex::{after_unlock, Mutex};
use crate::sync::semaphore::TaskId;
use std::collections::VecDeque;
use vstd::prelude::*;

verus! {

/// A condition variable.
pub struct Condvar {
    /// Tasks waiting for a signal, oldest first.
    pub wait_queue: VecDeque<TaskId>,
}

impl View for Condvar {
    type V = Seq<TaskId>;

    open spec fn view(&self) -> Seq<TaskId> {
        self.wait_queue@
    }
}

/// The queue after a signal, and the task to wake: the oldest waiter, if any.
pub open spec fn after_signal(q: Seq<TaskId>) -> (Seq<TaskId>, Option<TaskId>) {
    if q.len() > 0 {
        (q.drop_first(), Some(q[0]))
    } else {
        (q, None)
    }
}

impl Condvar {
    /// A condition variable with nobody waiting.
    pub fn new() -> (c: Self)
        ensures
            c@ == Seq::<TaskId>::empty(),
    {
        Condvar { wait_queue: VecDeque::new() }
    }

    /// Wake the first task blocked on the condition variable, if any:
    /// returns it, out of the queue.
    pub fn signal(&mut self) -> (woken: Option<TaskId>)
        ensures
            (final(self)@, woken) == after_signal(old(self)@),
    {
        let woken = self.wait_queue.pop_front();
        proof {
            if old(self)@.len() > 0 {
                assert(self@ =~= old(self)@.drop_first());
            }
        }
        woken
    }

    /// The first half of a wait by task `current`: release `mutex` (which
    /// may hand it to a waiter, returned to be woken) and join the queue.
    /// The caller then blocks, and once signalled locks `mutex` again.
    pub fn wait(&mut self, mutex: &mut Mutex, current: TaskId) -> (woken: Option<TaskId>)
        ensures
            final(self)@ == old(self)@.push(current),
            (final(mutex)@, woken) == after_unlock(old(mutex)@),
    {
        let woken = mutex.unlock();
        self.wait_queue.push_back(current);
        woken
    }
}

/// A signal wakes the task that has waited longest: the first in the
/// queue is woken and leaves it, and the others keep their order; with
/// nobody waiting, nobody is woken.
pub proof fn lemma_signal_wakes_oldest(q: Seq<TaskId>)
    ensures
        q.len() > 0 ==> after_signal(q).1 == Some(q[0]) && after_signal(q).0.len() == q.len() - 1
            && forall|k: int| 0 <= k < q.len() - 1 ==> #[trigger] after_signal(q).0[k] == q[k + 1],
        q.len() == 0 ==> after_signal(q) == (q, None::<TaskId>),
{
}

/// Waiters are signalled in the order they came: after `a` and then `b`
/// join an empty queue, the first signal wakes `a`, the second `b`, and
/// the queue is empty again.
pub proof fn lemma_condvar_fifo(a: TaskId, b: TaskId)
    ensures
        ({
            let q = Seq::<TaskId>::empty().push(a).push(b);
            let (q1, first) = after_signal(q);
            let (q2, second) = after_signal(q1);
            &&& first == Some(a)
            &&& second == Some(b)
            &&& q2.len() == 0
        }),
{
    let q = Seq::<TaskId>::empty().push(a).push(b);
    assert(q[0] == a);
    assert(after_signal(q).0 =~= seq![b]);
}

} // verus!
