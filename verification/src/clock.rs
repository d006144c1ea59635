//! A monotonic nanosecond clock. The epoch is the moment the clock was
//! created, which is arbitrary but stable for the whole run; only differences
//! of samples are ever interpreted.

use vstd::prelude::*;
use std::time::Instant;

verus! {

#[verifier::external_type_specification]
#[verifier::external_body]
pub struct ExInstant(Instant);

/// Wraps a monotonic clock readable with nanosecond resolution. Reading it
/// neither allocates nor locks, so it can sit in the measurement hot loop.
pub struct MonotonicClock {
    origin: Instant,
}

impl MonotonicClock {
    /// Relies on `std::time::Instant::now`: a sample of the operating
    /// system's monotonic clock, infallible on supported platforms.
    #[verifier::external_body]
    pub fn new() -> MonotonicClock {
        MonotonicClock { origin: Instant::now() }
    }

    /// Relies on `std::time::Instant::elapsed` and `Duration::as_nanos`:
    /// nanoseconds since the clock was created. The value depends on when the
    /// call happens, so nothing is promised of it; every caller must hold for
    /// any value that comes back.
    #[verifier::external_body]
    pub fn now_ns(&self) -> u64 {
        self.origin.elapsed().as_nanos().try_into().unwrap_or(u64::MAX)
    }
}

} // verus!
