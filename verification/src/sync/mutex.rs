//! Mutexes: a spinning one, whose waiters yield and retry, and a blocking
//! one, whose waiters queue up and are handed the mutex in turn.
//!
//! The mutex only decides: `lock` says whether the caller holds it now,
//! must block, or must yield and retry; `unlock` says which waiting task,
//! if any, is handed the mutex and is to be woken.
use crate::sync::semaphore::TaskId;
use std::collections::VecDeque;
use vstd::prelude::*;

verus! {

/// How a mutex waits: by yielding in a loop, or by blocking in a queue.
#[derive(Clone, Copy, PartialEq, Eq, Structural, Debug)]
pub enum MutexKind {
    /// Spins, yielding the processor, until the mutex is free.
    Spin,
    /// Blocks in the mutex's queue until handed the mutex.
    Blocking,
}

/// What a lock attempt comes to for the calling task.
#[derive(Clone, Copy, PartialEq, Eq, Structural, Debug)]
pub enum LockOutcome {
    /// The caller holds the mutex now.
    Acquired,
    /// The caller waits in the queue; it holds the mutex once woken.
    Block,
    /// The caller yields the processor and tries again later.
    Yield,
}

/// A mutex.
pub struct Mutex {
    /// How it waits.
    pub kind: MutexKind,
    /// Whether some task holds it.
    pub locked: bool,
    /// Tasks blocked on it, oldest first (blocking mutexes only).
    pub wait_queue: VecDeque<TaskId>,
}

/// A mutex as its kind, whether it is held, and its queue.
pub type MutexView = (MutexKind, bool, Seq<TaskId>);

impl View for Mutex {
    type V = MutexView;

    open spec fn view(&self) -> MutexView {
        (self.kind, self.locked, self.wait_queue@)
    }
}

/// Only a held blocking mutex has waiters.
pub open spec fn mutex_consistent(m: MutexView) -> bool {
    &&& m.2.len() > 0 ==> m.1
    &&& m.0 == MutexKind::Spin ==> m.2.len() == 0
}

/// The mutex after `current` tries to lock it, and what the try comes to:
/// a free mutex is taken; a held blocking one queues `current`; a held
/// spinning one sends it off to yield.
pub open spec fn after_lock(m: MutexView, current: TaskId) -> (MutexView, LockOutcome) {
    if !m.1 {
        ((m.0, true, m.2), LockOutcome::Acquired)
    } else if m.0 == MutexKind::Blocking {
        ((m.0, true, m.2.push(current)), LockOutcome::Block)
    } else {
        (m, LockOutcome::Yield)
    }
}

/// The mutex after an unlock, and the task to wake: a blocking mutex with
/// waiters passes, still held, to the oldest of them, which leaves the
/// queue; otherwise the mutex becomes free.
pub open spec fn after_unlock(m: MutexView) -> (MutexView, Option<TaskId>) {
    if m.0 == MutexKind::Blocking && m.2.len() > 0 {
        ((m.0, m.1, m.2.drop_first()), Some(m.2[0]))
    } else {
        ((m.0, false, m.2), None)
    }
}

impl Mutex {
    /// A free mutex of the given kind, with nobody waiting.
    pub fn new(kind: MutexKind) -> (m: Self)
        ensures
            m@ == (kind, false, Seq::<TaskId>::empty()),
            mutex_consistent(m@),
    {
        Mutex { kind, locked: false, wait_queue: VecDeque::new() }
    }

    /// Whether only a held blocking mutex has waiters here.
    pub fn is_consistent(&self) -> (ok: bool)
        ensures
            ok == mutex_consistent(self@),
    {
        let n = self.wait_queue.len();
        !(n > 0 && !self.locked) && !(n > 0 && self.kind == MutexKind::Spin)
    }

    /// Task `current` tries to lock the mutex.
    pub fn lock(&mut self, current: TaskId) -> (outcome: LockOutcome)
        ensures
            (final(self)@, outcome) == after_lock(old(self)@, current),
            mutex_consistent(old(self)@) ==> mutex_consistent(final(self)@),
    {
        if !self.locked {
            self.locked = true;
            LockOutcome::Acquired
        } else {
            match self.kind {
                MutexKind::Blocking => {
                    self.wait_queue.push_back(current);
                    LockOutcome::Block
                },
                MutexKind::Spin => LockOutcome::Yield,
            }
        }
    }

    /// Unlock the mutex; returns the waiting task that now holds it and is
    /// to be woken, if any.
    pub fn unlock(&mut self) -> (woken: Option<TaskId>)
        ensures
            (final(self)@, woken) == after_unlock(old(self)@),
            mutex_consistent(old(self)@) ==> mutex_consistent(final(self)@),
    {
        match self.kind {
            MutexKind::Blocking => {
                let woken = self.wait_queue.pop_front();
                if woken.is_none() {
                    self.locked = false;
                }
                proof {
                    if old(self)@.2.len() > 0 {
                        assert(self@.2 =~= old(self)@.2.drop_first());
                    }
                }
                woken
            },
            MutexKind::Spin => {
                self.locked = false;
                None
            },
        }
    }
}

/// Locking a free mutex and unlocking it leaves it as it was; on a held
/// blocking mutex, a lock that blocks followed by an unlock hands the mutex
/// to the blocked task when it was the only waiter.
pub proof fn lemma_lock_then_unlock(m: MutexView, current: TaskId)
    requires
        mutex_consistent(m),
    ensures
        !m.1 ==> after_lock(m, current).1 == LockOutcome::Acquired && after_unlock(
            after_lock(m, current).0,
        ) == (m, None::<TaskId>),
        m.1 && m.0 == MutexKind::Blocking && m.2.len() == 0 ==> after_unlock(
            after_lock(m, current).0,
        ) == (m, Some(current)),
{
    if m.1 && m.0 == MutexKind::Blocking && m.2.len() == 0 {
        assert(m.2.push(current).drop_first() =~= m.2);
    }
}

/// An unlock hands a blocking mutex to the task that has waited longest:
/// the first in the queue is woken, the mutex stays held for it, and the
/// other waiters keep their order; with nobody waiting, or for a spinning
/// mutex, the mutex becomes free and nobody is woken.
pub proof fn lemma_unlock_hands_to_oldest(m: MutexView)
    ensures
        m.0 == MutexKind::Blocking && m.2.len() > 0 ==> after_unlock(m).1 == Some(m.2[0])
            && after_unlock(m).0.1 == m.1 && after_unlock(m).0.2.len() == m.2.len() - 1 && forall|
            k: int,
        |
            0 <= k < m.2.len() - 1 ==> #[trigger] after_unlock(m).0.2[k] == m.2[k + 1],
        !(m.0 == MutexKind::Blocking && m.2.len() > 0) ==> after_unlock(m).1 is None
            && !after_unlock(m).0.1 && after_unlock(m).0.2 == m.2,
        after_unlock(m).0.0 == m.0,
{
}

/// A lock on a free mutex takes it; on a held one, a blocking mutex puts
/// the caller at the back of its queue, and a spinning one changes nothing.
pub proof fn lemma_lock_queues_last(m: MutexView, current: TaskId)
    ensures
        !m.1 ==> after_lock(m, current) == ((m.0, true, m.2), LockOutcome::Acquired),
        m.1 && m.0 == MutexKind::Blocking ==> after_lock(m, current).1 == LockOutcome::Block
            && after_lock(m, current).0.2.len() == m.2.len() + 1 && after_lock(m, current).0.2[m.2.len() as int]
            == current && forall|k: int|
            0 <= k < m.2.len() ==> #[trigger] after_lock(m, current).0.2[k] == m.2[k],
        m.1 && m.0 == MutexKind::Spin ==> after_lock(m, current) == (m, LockOutcome::Yield),
{
}

} // verus!
