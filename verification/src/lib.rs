//! A Prequal-style load-balancing director.
//!
//! The crate keeps a bounded table of backend-load samples ("probes"),
//! selects a backend per request by a hot/cold-lexicographic rule over
//! that table, and falls back to a uniform random pick when the table
//! cannot produce a choice.

pub mod backend;
pub mod balancer;
pub mod director;
pub mod metrics;
pub mod order;
pub mod probe;
pub mod protocol;
mod rng;
pub mod scenario;
pub mod sim_backend;

use vstd::prelude::*;

verus! {

/// Greatest number of samples the probe table may hold at once.
pub const PROBE_TABLE_SIZE: usize = 16;

/// A saturating event counter after one more event: one higher,
/// sticking at the top rather than wrapping.
pub open spec fn counted(c: u64) -> u64 {
    if c < u64::MAX {
        (c + 1) as u64
    } else {
        c
    }
}

/// Count one event.
pub(crate) fn bump(c: u64) -> (r: u64)
    ensures
        r == counted(c),
{
    if c < u64::MAX {
        c + 1
    } else {
        c
    }
}

} // verus!
