//! The coordination layer between a tracing garbage collector engine and a
//! managed-language runtime whose object layout, thread model, and root set
//! it does not control: the object model with its three-state forwarding
//! protocol, the per-thread closure bridge that feeds the runtime's native
//! enumeration callbacks into collector-owned visitors, buffered root
//! scanning with pinning, the pinning-parent registry, the
//! weak-reference/finalization sweep, and the stop-the-world orchestration.
//!
//! The collector engine's visible state — objects with their forwarding,
//! pin, and mark bits — is modelled explicitly in `heap`, so that every
//! protocol rule here is stated as a contract and proved. What only the
//! running system can do (native threads, the C ABI, process-wide locks)
//! lives with the embedder, which performs the upcalls this layer records
//! in its event log.

use vstd::prelude::*;

pub mod abi;
pub mod binding;
pub mod collection;
pub mod cruby;
pub mod heap;
pub mod object_model;
pub mod ppp;
pub mod scanning;
pub mod weak_proc;

verus! {

/// A reference to a managed heap object: the address of the object's
/// collector-visible header. Never zero for a valid object.
#[derive(Clone, Copy, PartialEq, Eq, Structural, Debug, Hash)]
pub struct ObjectReference {
    pub addr: usize,
}

impl ObjectReference {
    pub fn from_raw_address(addr: usize) -> (r: ObjectReference)
        ensures
            r.addr == addr,
    {
        ObjectReference { addr }
    }

    pub fn to_raw_address(self) -> (r: usize)
        ensures
            r == self.addr,
    {
        self.addr
    }
}

} // verus!
