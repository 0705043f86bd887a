//! Task and synchronisation bookkeeping of a small teaching kernel:
//! the stride scheduler's ready queue, counting semaphores, the
//! per-process mutex/semaphore/condvar tables with deadlock avoidance
//! (the banker's safety check), thread creation and reaping, and the
//! program-break and page-mapping decisions of a task.
use vstd::prelude::*;

pub mod sync;
pub mod syscall;
pub mod task;

verus! {

} // verus!
