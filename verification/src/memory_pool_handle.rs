//! A capability reference to an allocation arena.
//!
//! The handle carries no cryptographic state; it only selects where value
//! objects place their transient buffers.  The model keeps the capability
//! explicit and injectable so that construction sites name the pool they
//! allocate from.

use vstd::prelude::*;

use crate::error::HeError;

verus! {

/// A reference-counted capability to an allocation arena.
#[derive(Clone, Copy, Debug, PartialEq, Eq, Structural)]
pub struct MemoryPoolHandle {
    /// Whether the handle names the process-wide thread-local pool.
    pub thread_local: bool,
}

impl MemoryPoolHandle {
    /// A handle to the process-wide, lazily initialized thread-local pool.
    pub fn to_thread_local_pool() -> (r: Result<MemoryPoolHandle, HeError>)
        ensures
            r == Ok::<MemoryPoolHandle, HeError>(MemoryPoolHandle { thread_local: true }),
    {
        Ok(MemoryPoolHandle { thread_local: true })
    }
}

} // verus!
