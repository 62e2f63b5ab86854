//! The small computations behind the service's report packets. Rendering
//! the JSON envelopes themselves is the callers' presentation work.

use vstd::prelude::*;

verus! {

/// The service version, as the version report carries it.
pub struct Version {
    pub version: String,
}

/// How long the process has been up, from the current unix second and the
/// second it started at; a clock that moved backwards reads as zero rather
/// than failing.
pub fn uptime_seconds(now: u64, started: u64) -> (r: u64)
    ensures
        started <= now ==> r == now - started,
        started > now ==> r == 0,
{
    if now >= started {
        now - started
    } else {
        0
    }
}

} // verus!
