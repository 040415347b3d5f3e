use vstd::prelude::*;
use std::sync::atomic::AtomicI64;

verus! {

/// Counters shared between the connection handlers and the sampler.
pub struct SharedCounters {
    /// Connections being handled at this moment.
    pub active_connections: AtomicI64,
}

impl SharedCounters {
    /// Counters that start at zero.  What an atomic holds is opaque to the
    /// verifier, so the starting value is not part of the contract.
    pub fn new() -> (res: Self) {
        SharedCounters { active_connections: AtomicI64::new(0) }
    }
}

} // verus!
