//! The synchronisation objects of a small teaching kernel (mutexes,
//! semaphores, condition variables), the banker's test it uses to refuse a
//! lock or a wait that could deadlock, and the decisions its system calls
//! make on them and on memory mappings.
use vstd::prelude::*;

pub mod sync;
pub mod syscall;

verus! {

} // verus!
