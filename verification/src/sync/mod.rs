//! Synchronisation primitives.
use vstd::prelude::*;

pub mod condvar;
pub mod mutex;
pub mod semaphore;

verus! {

} // verus!
