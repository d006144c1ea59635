use irqgaps::cancel::CancelFlag;
use irqgaps::clock::MonotonicClock;
use irqgaps::detector::run_measurement;
use irqgaps::detector::Gap;
use irqgaps::detector::GapDetector;

#[test]
fn window_zero_yields_no_gaps() {
    let clock = MonotonicClock::new();
    let cancel = CancelFlag::new();
    let out = run_measurement(&clock, 0, 500, &cancel);
    assert_eq!(out.gaps.len(), 0);
    assert!(out.start <= out.end);
}

#[test]
fn window_zero_yields_no_gaps_any_threshold() {
    let clock = MonotonicClock::new();
    let cancel = CancelFlag::new();
    for threshold in [0u64, 1, 500, u64::MAX] {
        let out = run_measurement(&clock, 0, threshold, &cancel);
        assert_eq!(out.gaps.len(), 0);
    }
}

#[test]
fn recorded_gaps_exceed_threshold() {
    let mut d = GapDetector::new(1000, 10000, 500);
    assert!(!d.observe(1100));
    assert!(d.observe(1700));
    d.resample(1800);
    let out = d.into_output();
    assert_eq!(out.gaps, vec![Gap { start: 100, length: 600 }]);
    assert!(out.gaps.iter().all(|g| g.length > 500));
}

#[test]
fn jump_equal_to_threshold_is_not_a_gap() {
    let mut d = GapDetector::new(1000, 10000, 500);
    assert!(!d.observe(1500));
    let out = d.into_output();
    assert_eq!(out.gaps.len(), 0);
    assert_eq!(out.end, 1500);
}

#[test]
fn threshold_zero_is_a_valid_noisy_configuration() {
    let mut d = GapDetector::new(1000, 10000, 0);
    assert!(d.observe(1001));
    d.resample(1001);
    assert!(d.observe(1003));
    d.resample(1003);
    let out = d.into_output();
    assert_eq!(
        out.gaps,
        vec![Gap { start: 0, length: 1 }, Gap { start: 1, length: 2 }]
    );
}

#[test]
fn non_advancing_sample_is_not_a_gap() {
    let mut d = GapDetector::new(1000, 10000, 500);
    assert!(!d.observe(900));
    assert!(!d.observe(1000));
    let out = d.into_output();
    assert_eq!(out.gaps.len(), 0);
    assert_eq!(out.end, 1000);
}

#[test]
fn recording_does_not_charge_the_recording_time() {
    // After a recorded gap the baseline stays put until a fresh sample is
    // installed, so the recording overhead is not part of the next jump.
    let mut d = GapDetector::new(0, 100000, 10);
    assert!(d.observe(100));
    d.resample(150);
    assert!(!d.observe(155));
    let out = d.into_output();
    assert_eq!(out.gaps, vec![Gap { start: 0, length: 100 }]);
    assert_eq!(out.end, 155);
}

#[test]
fn deadline_is_clipped_to_the_clock_range() {
    let d = GapDetector::new(u64::MAX - 5, u64::MAX, 500);
    assert_eq!(d.deadline, u64::MAX);
    assert!(d.running());
}

#[test]
fn cancellation_stops_the_loop_early() {
    let clock = MonotonicClock::new();
    let cancel = CancelFlag::new();
    cancel.request_stop();
    // A window of an hour: only the cancellation request lets this return.
    let out = run_measurement(&clock, 3_600_000_000_000, 500, &cancel);
    assert!(out.start <= out.end);
}

#[test]
fn cloned_cancel_handles_share_the_flag() {
    let cancel = CancelFlag::new();
    let handle = cancel.clone();
    assert!(!cancel.is_stopped());
    handle.request_stop();
    assert!(cancel.is_stopped());
}

#[test]
fn real_clock_gaps_all_exceed_threshold() {
    let clock = MonotonicClock::new();
    let cancel = CancelFlag::new();
    // Two milliseconds of busy polling with a zero threshold records plenty
    // of "gaps"; every one must still be strictly longer than the threshold.
    let out = run_measurement(&clock, 2_000_000, 0, &cancel);
    assert!(out.gaps.iter().all(|g| g.length > 0));
    assert!(out.start <= out.end);
}
