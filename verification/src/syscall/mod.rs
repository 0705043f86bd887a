//! System calls on a process's synchronisation and thread state.
//!
//! Each call takes the state of the calling process and decides; waking,
//! blocking and yielding are the scheduler's work, told to it by the result.
use vstd::prelude::*;

pub mod laws;
pub mod sync;
pub mod thread;

verus! {

/// What a system call that may wait asks of the scheduler.
#[derive(Clone, Copy, PartialEq, Eq, Structural, Debug)]
pub enum SyscallStep {
    /// The call is done and returns this value.
    Return(isize),
    /// The calling task must block; the call completes once it is woken.
    Block,
    /// The calling task must yield the processor and then try again.
    Yield,
}

/// What a call returns when granting it could deadlock the process.
pub const DEADLOCK: isize = -0xDEAD;

} // verus!
