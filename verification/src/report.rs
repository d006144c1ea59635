//! Rendering a run's outcome: the explained fraction as a fixed-point
//! percentage with two decimal digits, one line per kind with its attributed
//! timestamps, and the operator-facing diagnostic ratio. Pure formatting
//! over the correlator's output; no computation beyond the rounding itself.

use vstd::prelude::*;
use vstd::string::StringExecFns;
use crate::correlate::KindTimeline;
use crate::correlate::RunStats;

verus! {

/// Zero gaps were detected while a percentage had to be computed: the
/// explained fraction is undefined. This is surfaced as a fatal
/// input-validation error, never as a silent zero.
#[derive(Clone, Copy, Debug, PartialEq, Eq, Structural)]
pub enum ReportError {
    NoGaps,
}

pub open spec fn spec_digit(d: int) -> char {
    if d == 0 {
        '0'
    } else if d == 1 {
        '1'
    } else if d == 2 {
        '2'
    } else if d == 3 {
        '3'
    } else if d == 4 {
        '4'
    } else if d == 5 {
        '5'
    } else if d == 6 {
        '6'
    } else if d == 7 {
        '7'
    } else if d == 8 {
        '8'
    } else {
        '9'
    }
}

/// Decimal digits of `n`, most significant first; no leading zeros, a single
/// zero digit for zero.
pub open spec fn spec_decimal(n: int) -> Seq<char>
    decreases n,
{
    if n < 10 {
        seq![spec_digit(n)]
    } else {
        spec_decimal(n / 10).push(spec_digit(n % 10))
    }
}

fn digit_str(d: u64) -> (s: &'static str)
    requires
        d < 10,
    ensures
        s@ == seq![spec_digit(d as int)],
{
    proof {
        reveal_strlit("0");
        reveal_strlit("1");
        reveal_strlit("2");
        reveal_strlit("3");
        reveal_strlit("4");
        reveal_strlit("5");
        reveal_strlit("6");
        reveal_strlit("7");
        reveal_strlit("8");
        reveal_strlit("9");
    }
    if d == 0 {
        "0"
    } else if d == 1 {
        "1"
    } else if d == 2 {
        "2"
    } else if d == 3 {
        "3"
    } else if d == 4 {
        "4"
    } else if d == 5 {
        "5"
    } else if d == 6 {
        "6"
    } else if d == 7 {
        "7"
    } else if d == 8 {
        "8"
    } else {
        "9"
    }
}

/// Append the decimal rendering of `n`.
fn append_decimal(s: &mut String, n: u64)
    ensures
        final(s)@ == old(s)@ + spec_decimal(n as int),
    decreases n,
{
    if n < 10 {
        s.append(digit_str(n));
        proof {
            assert(s@ =~= old(s)@ + spec_decimal(n as int));
        }
    } else {
        append_decimal(s, n / 10);
        s.append(digit_str(n % 10));
        proof {
            assert(s@ =~= old(s)@ + spec_decimal(n as int));
        }
    }
}

/// Hundredths of the explained percentage, rounded half up: the integer
/// nearest to `explained / total * 10000`.
pub open spec fn spec_percent_hundredths(explained: int, total: int) -> int {
    (explained * 20000 + total) / (2 * total)
}

/// The percentage string: the integer part in decimal, a point, then exactly
/// two fractional digits.
pub open spec fn spec_percent_chars(explained: int, total: int) -> Seq<char> {
    let h = spec_percent_hundredths(explained, total);
    spec_decimal(h / 100) + seq!['.'] + seq![spec_digit((h % 100) / 10), spec_digit((h % 100) % 10)]
}

/// Render `explained / total` as a fixed-point percentage with two decimal
/// digits (`"87.50"`). A total of zero is the degenerate-input failure: the
/// percentage is undefined and the error is returned.
pub fn format_percentage(explained: usize, total: usize) -> (r: Result<String, ReportError>)
    requires
        explained <= total,
    ensures
        r is Ok <==> total > 0,
        total == 0 ==> r == Err::<String, ReportError>(ReportError::NoGaps),
        r matches Ok(s) ==> s@ == spec_percent_chars(explained as int, total as int),
{
    if total == 0 {
        return Err(ReportError::NoGaps);
    }
    let num: u128 = (explained as u128) * 20000 + (total as u128);
    let den: u128 = 2 * (total as u128);
    let h_wide: u128 = num / den;
    proof {
        assert(h_wide <= 10000) by (nonlinear_arith)
            requires
                explained <= total,
                total > 0,
                num == explained * 20000 + total,
                den == 2 * total,
                h_wide == num / den,
        ;
    }
    let h: u64 = h_wide as u64;
    let int_part: u64 = h / 100;
    let frac: u64 = h % 100;
    let mut s = String::new();
    append_decimal(&mut s, int_part);
    s.append(".");
    s.append(digit_str(frac / 10));
    s.append(digit_str(frac % 10));
    proof {
        reveal_strlit(".");
        assert(s@ =~= spec_percent_chars(explained as int, total as int));
    }
    Ok(s)
}

/// The kind code in decimal, a minus sign leading a negative code.
pub open spec fn spec_kind_chars(k: int) -> Seq<char> {
    if k < 0 {
        seq!['-'] + spec_decimal(-k)
    } else {
        spec_decimal(k)
    }
}

/// One space before each timestamp, timestamps in sequence order.
pub open spec fn spec_times_chars(times: Seq<u64>) -> Seq<char>
    decreases times.len(),
{
    if times.len() == 0 {
        Seq::<char>::empty()
    } else {
        spec_times_chars(times.drop_last()) + seq![' '] + spec_decimal(times.last() as int)
    }
}

/// A report line for one kind: the kind code, then its attributed
/// timestamps in the order they were appended, space-separated.
pub open spec fn spec_kind_line(kind: int, times: Seq<u64>) -> Seq<char> {
    spec_kind_chars(kind) + spec_times_chars(times)
}

/// Render one kind's line of the report.
pub fn format_kind_line(kind: i32, times: &Vec<u64>) -> (s: String)
    ensures
        s@ == spec_kind_line(kind as int, times@),
{
    let mut s = String::new();
    if kind < 0 {
        s.append("-");
        let mag: i64 = -(kind as i64);
        append_decimal(&mut s, mag as u64);
        proof {
            reveal_strlit("-");
            assert(s@ =~= spec_kind_chars(kind as int));
        }
    } else {
        append_decimal(&mut s, kind as u64);
    }
    let n = times.len();
    let mut i: usize = 0;
    while i < n
        invariant
            i <= n == times@.len(),
            s@ == spec_kind_line(kind as int, times@.take(i as int)),
        decreases n - i,
    {
        s.append(" ");
        append_decimal(&mut s, times[i]);
        proof {
            reveal_strlit(" ");
            assert(times@.take(i + 1).drop_last() =~= times@.take(i as int));
            assert(times@.take(i + 1).last() == times@[i as int]);
            assert(s@ =~= spec_kind_line(kind as int, times@.take(i + 1)));
        }
        i = i + 1;
    }
    proof {
        assert(times@.take(n as int) =~= times@);
    }
    s
}

/// Render the whole primary report: first the percentage line, then one
/// line per kind present in the timeline, kinds visited in their stored
/// (ascending) order. Fails exactly when no gap was detected.
pub fn report_lines(stats: &RunStats, timeline: &KindTimeline) -> (r: Result<
    Vec<String>,
    ReportError,
>)
    requires
        stats.explained_gaps <= stats.total_gaps,
    ensures
        r is Ok <==> stats.total_gaps > 0,
        stats.total_gaps == 0 ==> r == Err::<Vec<String>, ReportError>(ReportError::NoGaps),
        r matches Ok(lines) ==> lines@.len() == 1 + timeline@.len() && lines@[0]@
            == spec_percent_chars(stats.explained_gaps as int, stats.total_gaps as int) && forall|
            i: int,
        |
            0 <= i < timeline@.len() ==> (#[trigger] lines@[i + 1])@ == spec_kind_line(
                timeline@[i].0 as int,
                timeline@[i].1,
            ),
{
    let first = match format_percentage(stats.explained_gaps, stats.total_gaps) {
        Ok(s) => s,
        Err(e) => {
            return Err(e);
        },
    };
    let mut lines: Vec<String> = Vec::new();
    lines.push(first);
    let n = timeline.entries.len();
    let mut i: usize = 0;
    while i < n
        invariant
            i <= n == timeline.entries@.len(),
            lines@.len() == 1 + i,
            lines@[0]@ == spec_percent_chars(
                stats.explained_gaps as int,
                stats.total_gaps as int,
            ),
            forall|j: int|
                0 <= j < i ==> (#[trigger] lines@[j + 1])@ == spec_kind_line(
                    timeline@[j].0 as int,
                    timeline@[j].1,
                ),
        decreases n - i,
    {
        let pair = &timeline.entries[i];
        let line = format_kind_line(pair.0, &pair.1);
        lines.push(line);
        i = i + 1;
    }
    Ok(lines)
}

/// The diagnostic summary ratio (`"<valid events>/<total gaps>"`) written to
/// the operator-facing stream.
pub fn format_ratio(valid_events: usize, total_gaps: usize) -> (s: String)
    ensures
        s@ == spec_decimal(valid_events as int) + seq!['/'] + spec_decimal(total_gaps as int),
{
    let mut s = String::new();
    append_decimal(&mut s, valid_events as u64);
    s.append("/");
    append_decimal(&mut s, total_gaps as u64);
    proof {
        reveal_strlit("/");
        assert(s@ =~= spec_decimal(valid_events as int) + seq!['/'] + spec_decimal(
            total_gaps as int,
        ));
    }
    s
}

} // verus!
