//! Gap detection: a busy-poll loop over a monotonic clock that records every
//! stretch of time in which consecutive clock samples differ by more than a
//! configured threshold.

use vstd::prelude::*;
use crate::cancel::CancelFlag;
use crate::clock::MonotonicClock;

verus! {

/// A detected scheduling stall. `start` is the offset in nanoseconds from the
/// beginning of the measurement window; `length` is the stall's duration in
/// nanoseconds.
#[derive(Clone, Copy, Debug, PartialEq, Eq, Structural)]
pub struct Gap {
    pub start: u64,
    pub length: u64,
}

/// Number of gap slots reserved before the measurement loop starts, so that
/// recording a gap does not normally allocate mid-loop (an allocation pause
/// would itself register as a gap).
pub const GAP_CAPACITY: usize = 1000000;

/// Deadline for a window of `window_duration_ns` starting at `start`, clipped
/// to the clock's range.
pub open spec fn spec_deadline(start: u64, window_duration_ns: u64) -> u64 {
    if start + window_duration_ns <= u64::MAX {
        (start + window_duration_ns) as u64
    } else {
        u64::MAX
    }
}

/// The state of the gap-detection loop between two clock samples.
pub struct GapDetector {
    /// First clock sample of the window; all gap offsets are relative to it.
    pub start: u64,
    /// Clock value at which the window closes.
    pub deadline: u64,
    /// A jump strictly larger than this many nanoseconds is recorded as a gap.
    pub threshold: u64,
    /// The most recent clock sample charged as the baseline of the next jump.
    pub last_seen: u64,
    /// Gaps recorded so far, in discovery order.
    pub gaps: Vec<Gap>,
}

impl GapDetector {
    /// Every recorded gap is strictly longer than the threshold, and the
    /// baseline sample never precedes the window start.
    pub open spec fn wf(self) -> bool {
        &&& self.start <= self.last_seen
        &&& forall|i: int| 0 <= i < self.gaps@.len() ==> self.gaps@[i].length > self.threshold
    }

    pub fn new(start: u64, window_duration_ns: u64, gap_threshold_ns: u64) -> (d: GapDetector)
        ensures
            d.wf(),
            d.start == start,
            d.deadline == spec_deadline(start, window_duration_ns),
            d.threshold == gap_threshold_ns,
            d.last_seen == start,
            d.gaps@.len() == 0,
    {
        let deadline = if window_duration_ns <= u64::MAX - start {
            start + window_duration_ns
        } else {
            u64::MAX
        };
        let gaps: Vec<Gap> = Vec::with_capacity(GAP_CAPACITY);
        GapDetector { start, deadline, threshold: gap_threshold_ns, last_seen: start, gaps }
    }

    /// The window is still open: the baseline sample has not reached the
    /// deadline.
    pub fn running(&self) -> (r: bool)
        ensures
            r == (self.last_seen < self.deadline),
    {
        self.last_seen < self.deadline
    }

    /// Feed one clock sample. A jump strictly above the threshold is recorded
    /// as a gap; the baseline is then left untouched so that the caller can
    /// re-sample the clock (recording takes time that must not be charged to
    /// the next gap). Anything else, including a non-advancing sample, merely
    /// advances the baseline.
    pub fn observe(&mut self, current: u64) -> (recorded: bool)
        requires
            old(self).wf(),
        ensures
            final(self).wf(),
            final(self).start == old(self).start,
            final(self).deadline == old(self).deadline,
            final(self).threshold == old(self).threshold,
            recorded == (current > old(self).last_seen
                && current - old(self).last_seen > old(self).threshold),
            recorded ==> final(self).gaps@ == old(self).gaps@.push(
                Gap {
                    start: (old(self).last_seen - old(self).start) as u64,
                    length: (current - old(self).last_seen) as u64,
                },
            ) && final(self).last_seen == old(self).last_seen,
            !recorded ==> final(self).gaps@ == old(self).gaps@ && final(self).last_seen == (
            if current > old(self).last_seen {
                current
            } else {
                old(self).last_seen
            }),
    {
        if current > self.last_seen && current - self.last_seen > self.threshold {
            let gap = Gap { start: self.last_seen - self.start, length: current - self.last_seen };
            self.gaps.push(gap);
            true
        } else {
            if current > self.last_seen {
                self.last_seen = current;
            }
            false
        }
    }

    /// Dissolve the detector into its recorded output.
    pub fn into_output(self) -> (out: MeasurementOutput)
        requires
            self.wf(),
        ensures
            out.start == self.start,
            out.end == self.last_seen,
            out.gaps@ == self.gaps@,
            out.start <= out.end,
            forall|i: int| 0 <= i < out.gaps@.len() ==> out.gaps@[i].length > self.threshold,
    {
        MeasurementOutput { start: self.start, end: self.last_seen, gaps: self.gaps }
    }

    /// Install a fresh clock sample as the new baseline after a gap was
    /// recorded. A sample older than the current baseline is ignored.
    pub fn resample(&mut self, t: u64)
        requires
            old(self).wf(),
        ensures
            final(self).wf(),
            final(self).start == old(self).start,
            final(self).deadline == old(self).deadline,
            final(self).threshold == old(self).threshold,
            final(self).gaps@ == old(self).gaps@,
            final(self).last_seen == (if t > old(self).last_seen {
                t
            } else {
                old(self).last_seen
            }),
    {
        if t > self.last_seen {
            self.last_seen = t;
        }
    }
}

/// What a measurement window yields: the recorded gaps in discovery order and
/// the window's clock bounds. `end` is the clock value at loop exit; it is
/// the upper bound for valid events during correlation.
pub struct MeasurementOutput {
    pub start: u64,
    pub end: u64,
    pub gaps: Vec<Gap>,
}

/// Busy-poll the clock for `window_duration_ns` nanoseconds and record every
/// jump of consecutive samples strictly above `gap_threshold_ns`. The loop
/// never sleeps or yields: a deliberate pause would be indistinguishable from
/// the scheduling gaps being measured. It exits when the window elapses, when
/// `cancel` is observed set, or - as a guard against a clock stuck on one
/// value - after an iteration budget far beyond any real window is spent.
///
/// A zero `window_duration_ns` yields zero gaps at once; a zero threshold is
/// a valid (if noisy) configuration that records nearly every jump. Windows
/// reaching past the clock's range are clipped to it.
pub fn run_measurement(
    clock: &MonotonicClock,
    window_duration_ns: u64,
    gap_threshold_ns: u64,
    cancel: &CancelFlag,
) -> (out: MeasurementOutput)
    ensures
        out.start <= out.end,
        forall|i: int| 0 <= i < out.gaps@.len() ==> out.gaps@[i].length > gap_threshold_ns,
        window_duration_ns == 0 ==> out.gaps@.len() == 0,
{
    let start = clock.now_ns();
    let mut d = GapDetector::new(start, window_duration_ns, gap_threshold_ns);
    let mut budget: u64 = u64::MAX;
    let mut stop = false;
    while !stop
        invariant
            d.wf(),
            d.start == start,
            d.threshold == gap_threshold_ns,
            d.deadline == spec_deadline(start, window_duration_ns),
            window_duration_ns == 0 ==> d.gaps@.len() == 0,
        decreases budget + if stop {
            0int
        } else {
            1int
        },
    {
        if budget == 0 || !d.running() || cancel.is_stopped() {
            stop = true;
        } else {
            budget = budget - 1;
            let current = clock.now_ns();
            if d.observe(current) {
                let fresh = clock.now_ns();
                d.resample(fresh);
            }
        }
    }
    d.into_output()
}

} // verus!
