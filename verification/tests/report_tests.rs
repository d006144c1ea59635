use irqgaps::correlate::KindTimeline;
use irqgaps::correlate::RunStats;
use irqgaps::report::format_kind_line;
use irqgaps::report::format_percentage;
use irqgaps::report::format_ratio;
use irqgaps::report::report_lines;
use irqgaps::report::ReportError;

#[test]
fn percentage_zero_of_four() {
    assert_eq!(format_percentage(0, 4).unwrap(), "0.00");
}

#[test]
fn percentage_four_of_four() {
    assert_eq!(format_percentage(4, 4).unwrap(), "100.00");
}

#[test]
fn percentage_one_of_three() {
    assert_eq!(format_percentage(1, 3).unwrap(), "33.33");
}

#[test]
fn percentage_rounds_half_up() {
    assert_eq!(format_percentage(2, 3).unwrap(), "66.67");
    assert_eq!(format_percentage(1, 8).unwrap(), "12.50");
    assert_eq!(format_percentage(7, 8).unwrap(), "87.50");
}

#[test]
fn percentage_with_zero_total_is_a_fatal_error() {
    assert_eq!(format_percentage(0, 0), Err(ReportError::NoGaps));
}

#[test]
fn kind_line_formats_code_and_timestamps() {
    assert_eq!(format_kind_line(7, &vec![120]), "7 120");
    assert_eq!(format_kind_line(100, &vec![1, 22, 333]), "100 1 22 333");
}

#[test]
fn kind_line_without_timestamps_is_just_the_code() {
    assert_eq!(format_kind_line(42, &vec![]), "42");
}

#[test]
fn kind_line_with_negative_code() {
    assert_eq!(format_kind_line(-5, &vec![9, 10]), "-5 9 10");
    assert_eq!(format_kind_line(i32::MIN, &vec![]), "-2147483648");
}

#[test]
fn ratio_line() {
    assert_eq!(format_ratio(3, 4), "3/4");
    assert_eq!(format_ratio(0, 1), "0/1");
}

#[test]
fn report_of_the_end_to_end_scenario() {
    let stats = RunStats { total_gaps: 2, explained_gaps: 1, total_events: 2 };
    let timeline = KindTimeline { entries: vec![(7, vec![120])] };
    let lines = report_lines(&stats, &timeline).unwrap();
    assert_eq!(lines, vec!["50.00".to_string(), "7 120".to_string()]);
}

#[test]
fn report_lists_kinds_in_stored_order() {
    let stats = RunStats { total_gaps: 4, explained_gaps: 4, total_events: 4 };
    let timeline = KindTimeline {
        entries: vec![(1, vec![10]), (3, vec![30, 31]), (200, vec![40])],
    };
    let lines = report_lines(&stats, &timeline).unwrap();
    assert_eq!(
        lines,
        vec![
            "100.00".to_string(),
            "1 10".to_string(),
            "3 30 31".to_string(),
            "200 40".to_string(),
        ]
    );
}

#[test]
fn report_with_zero_gaps_is_a_fatal_error() {
    let stats = RunStats { total_gaps: 0, explained_gaps: 0, total_events: 5 };
    let timeline = KindTimeline { entries: vec![] };
    assert_eq!(report_lines(&stats, &timeline), Err(ReportError::NoGaps));
}
