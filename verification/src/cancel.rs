//! Cooperative cancellation. An operator-issued interrupt request sets a
//! shared flag; the measurement loop polls it once per iteration and, when it
//! is set, stops early and reports on whatever partial data exists.

use vstd::prelude::*;
use core::sync::atomic::AtomicBool;
use core::sync::atomic::Ordering;
use std::sync::Arc;

verus! {

/// A shared stop flag. Clones observe the same flag, so one handle can be
/// moved into a signal handler while another is polled by the loop. Nothing
/// is promised of the polled value: it may flip to `true` at any moment
/// between two polls, and the loop must be correct for either answer.
#[derive(Clone)]
pub struct CancelFlag {
    stop: Arc<AtomicBool>,
}

impl CancelFlag {
    /// A fresh flag. The initial value is not relied upon by any contract:
    /// the loop merely exits no later than one iteration after the flag is
    /// observed set.
    pub fn new() -> CancelFlag {
        CancelFlag { stop: Arc::new(AtomicBool::new(false)) }
    }

    /// Ask the measurement loop to stop at its next poll.
    pub fn request_stop(&self) {
        self.stop.store(true, Ordering::SeqCst);
    }

    /// Poll the flag. The result depends on what other threads did, so no
    /// contract constrains it.
    pub fn is_stopped(&self) -> bool {
        self.stop.load(Ordering::SeqCst)
    }
}

} // verus!
