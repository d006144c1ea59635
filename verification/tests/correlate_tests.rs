use irqgaps::correlate::correlate;
use irqgaps::correlate::find_first_match;
use irqgaps::correlate::group_by_kind;
use irqgaps::detector::Gap;
use irqgaps::events::Event;

#[test]
fn end_to_end_scenario() {
    let gaps = vec![Gap { start: 100, length: 50 }, Gap { start: 500, length: 10 }];
    let events = vec![
        Event { timestamp: 120, kind: 7 },
        Event { timestamp: 10000, kind: 2 },
    ];
    let (stats, timeline) = correlate(&gaps, &events);
    assert_eq!(stats.total_gaps, 2);
    assert_eq!(stats.explained_gaps, 1);
    assert_eq!(stats.total_events, 2);
    assert_eq!(timeline.entries, vec![(7, vec![120])]);
}

#[test]
fn explained_never_exceeds_total() {
    let gaps = vec![
        Gap { start: 0, length: 10 },
        Gap { start: 1000, length: 10 },
        Gap { start: 2000, length: 10 },
    ];
    let events = vec![Event { timestamp: 1005, kind: 4 }];
    let (stats, _) = correlate(&gaps, &events);
    assert!(stats.explained_gaps <= stats.total_gaps);
    assert_eq!(stats.explained_gaps, 1);
}

#[test]
fn all_gaps_explained_when_every_window_holds_an_event() {
    let gaps = vec![Gap { start: 100, length: 10 }, Gap { start: 500, length: 20 }];
    let events = vec![
        Event { timestamp: 105, kind: 1 },
        Event { timestamp: 510, kind: 2 },
    ];
    let (stats, _) = correlate(&gaps, &events);
    assert_eq!(stats.explained_gaps, stats.total_gaps);
}

#[test]
fn correlation_is_idempotent_on_a_snapshot() {
    let gaps = vec![
        Gap { start: 100, length: 50 },
        Gap { start: 300, length: 10 },
        Gap { start: 900, length: 5 },
    ];
    let events = vec![
        Event { timestamp: 120, kind: 7 },
        Event { timestamp: 310, kind: 3 },
        Event { timestamp: 2000, kind: 1 },
    ];
    let (stats1, timeline1) = correlate(&gaps, &events);
    let (stats2, timeline2) = correlate(&gaps, &events);
    assert_eq!(stats1, stats2);
    assert_eq!(timeline1.entries, timeline2.entries);
}

#[test]
fn kinds_are_reported_ascending_regardless_of_discovery_order() {
    // The first processed gap matches kind 9, the second kind 3: discovery
    // order is descending, the timeline must still be ascending.
    let gaps = vec![Gap { start: 1000, length: 10 }, Gap { start: 100, length: 10 }];
    let events = vec![
        Event { timestamp: 105, kind: 3 },
        Event { timestamp: 1005, kind: 9 },
    ];
    let (stats, timeline) = correlate(&gaps, &events);
    assert_eq!(stats.explained_gaps, 2);
    let kinds: Vec<i32> = timeline.entries.iter().map(|e| e.0).collect();
    assert_eq!(kinds, vec![3, 9]);
    assert!(kinds.windows(2).all(|w| w[0] < w[1]));
}

#[test]
fn earliest_event_in_window_is_chosen() {
    let gaps = vec![Gap { start: 100, length: 50 }];
    let events = vec![
        Event { timestamp: 60, kind: 1 },
        Event { timestamp: 80, kind: 2 },
        Event { timestamp: 120, kind: 3 },
    ];
    let (stats, timeline) = correlate(&gaps, &events);
    assert_eq!(stats.explained_gaps, 1);
    assert_eq!(timeline.entries, vec![(1, vec![60])]);
}

#[test]
fn tolerance_bounds_are_inclusive() {
    // Gap [200, 250] with tolerance 150: window is [50, 400].
    let gap = Gap { start: 200, length: 50 };
    let at = |ts: u64| vec![Event { timestamp: ts, kind: 1 }];
    assert_eq!(find_first_match(&at(50), &gap), Some(0));
    assert_eq!(find_first_match(&at(400), &gap), Some(0));
    assert_eq!(find_first_match(&at(49), &gap), None);
    assert_eq!(find_first_match(&at(401), &gap), None);
}

#[test]
fn low_window_edge_is_clamped_at_zero() {
    // A gap starting before the tolerance reaches back to offset zero.
    let gap = Gap { start: 100, length: 10 };
    let events = vec![Event { timestamp: 0, kind: 5 }];
    assert_eq!(find_first_match(&events, &gap), Some(0));
}

#[test]
fn window_upper_edge_saturates_at_the_clock_range() {
    // The widened interval would overflow the clock type; every event at or
    // above the lower edge must still match.
    let gap = Gap { start: u64::MAX - 10, length: 100 };
    let events = vec![Event { timestamp: u64::MAX, kind: 1 }];
    assert_eq!(find_first_match(&events, &gap), Some(0));
}

#[test]
fn unmatched_gaps_leave_no_timeline_entries() {
    let gaps = vec![Gap { start: 500, length: 10 }];
    let events = vec![Event { timestamp: 10000, kind: 2 }];
    let (stats, timeline) = correlate(&gaps, &events);
    assert_eq!(stats.explained_gaps, 0);
    assert!(timeline.entries.is_empty());
}

#[test]
fn repeated_kind_appends_to_its_timeline() {
    let gaps = vec![Gap { start: 100, length: 10 }, Gap { start: 500, length: 10 }];
    let events = vec![
        Event { timestamp: 105, kind: 4 },
        Event { timestamp: 505, kind: 4 },
    ];
    let (stats, timeline) = correlate(&gaps, &events);
    assert_eq!(stats.explained_gaps, 2);
    assert_eq!(timeline.entries, vec![(4, vec![105, 505])]);
}

#[test]
fn group_by_kind_builds_the_histogram_source() {
    let events = vec![
        Event { timestamp: 10, kind: 5 },
        Event { timestamp: 20, kind: 1 },
        Event { timestamp: 30, kind: 5 },
    ];
    let grouped = group_by_kind(&events);
    assert_eq!(grouped.entries, vec![(1, vec![20]), (5, vec![10, 30])]);
}
