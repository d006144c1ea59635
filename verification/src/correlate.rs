//! Gap-to-event attribution. After the window closes, each recorded gap is
//! matched against the sorted, rebased event sequence: an event whose
//! timestamp lies within a symmetric tolerance of the gap's interval explains
//! the gap. The match policy is deterministic: the earliest event in the
//! window is chosen. Matched events are folded into per-kind timelines.

use vstd::prelude::*;
use crate::detector::Gap;
use crate::events::Event;
use crate::events::RawEvent;
use crate::events::comes_from;
use crate::events::lemma_filter_sources;
use crate::events::sorted_strict_ev;
use crate::events::spec_filter_rebase;

verus! {

/// Symmetric slack, in nanoseconds, added to both ends of a gap's interval
/// when searching for a matching event; it compensates for measurement and
/// instrumentation latency.
pub const ATTRIBUTION_TOLERANCE_NS: u64 = 150;

/// The event explains the gap: its timestamp lies in the gap's interval
/// widened by the tolerance on both sides (inclusive bounds).
pub open spec fn in_window(e: Event, g: Gap) -> bool {
    &&& g.start <= e.timestamp + ATTRIBUTION_TOLERANCE_NS
    &&& e.timestamp <= g.start + g.length + ATTRIBUTION_TOLERANCE_NS
}

/// Index of the earliest event that explains the gap, if any.
pub open spec fn first_match(events: Seq<Event>, g: Gap) -> Option<int>
    decreases events.len(),
{
    if events.len() == 0 {
        None
    } else if in_window(events[0], g) {
        Some(0int)
    } else {
        match first_match(events.drop_first(), g) {
            None => None,
            Some(i) => Some(i + 1),
        }
    }
}

pub proof fn lemma_first_match_props(events: Seq<Event>, g: Gap)
    ensures
        match first_match(events, g) {
            Some(i) => 0 <= i < events.len() && in_window(events[i], g) && forall|j: int|
                0 <= j < i ==> !in_window(events[j], g),
            None => forall|j: int| 0 <= j < events.len() ==> !in_window(events[j], g),
        },
    decreases events.len(),
{
    if events.len() > 0 && !in_window(events[0], g) {
        lemma_first_match_props(events.drop_first(), g);
        assert(forall|j: int|
            1 <= j < events.len() ==> events[j] == events.drop_first()[j - 1]);
    }
}

proof fn lemma_first_match_is(events: Seq<Event>, g: Gap, i: int)
    requires
        0 <= i < events.len(),
        in_window(events[i], g),
        forall|j: int| 0 <= j < i ==> !in_window(events[j], g),
    ensures
        first_match(events, g) == Some(i),
    decreases events.len(),
{
    if in_window(events[0], g) {
        assert(i == 0);
    } else {
        assert(events.drop_first()[i - 1] == events[i]);
        assert(forall|j: int|
            0 <= j < i - 1 ==> events.drop_first()[j] == events[j + 1]);
        lemma_first_match_is(events.drop_first(), g, i - 1);
    }
}

proof fn lemma_first_match_none(events: Seq<Event>, g: Gap)
    requires
        forall|j: int| 0 <= j < events.len() ==> !in_window(events[j], g),
    ensures
        first_match(events, g) is None,
    decreases events.len(),
{
    if events.len() > 0 {
        assert(forall|j: int|
            0 <= j < events.drop_first().len() ==> events.drop_first()[j] == events[j + 1]);
        lemma_first_match_none(events.drop_first(), g);
    }
}

/// First index whose timestamp is at least `ts`.
fn lower_bound_ev(events: &Vec<Event>, ts: u64) -> (i: usize)
    requires
        sorted_strict_ev(events@),
    ensures
        i <= events@.len(),
        forall|j: int| 0 <= j < i ==> events@[j].timestamp < ts,
        forall|j: int| i <= j < events@.len() ==> events@[j].timestamp >= ts,
{
    let mut lo: usize = 0;
    let mut hi: usize = events.len();
    while lo < hi
        invariant
            lo <= hi <= events@.len(),
            sorted_strict_ev(events@),
            forall|j: int| 0 <= j < lo ==> events@[j].timestamp < ts,
            forall|j: int| hi <= j < events@.len() ==> events@[j].timestamp >= ts,
        decreases hi - lo,
    {
        let mid = lo + (hi - lo) / 2;
        if events[mid].timestamp < ts {
            lo = mid + 1;
        } else {
            hi = mid;
        }
    }
    lo
}

/// Search the sorted event sequence for the earliest event explaining the
/// gap. The sorted order admits an ordered range search: a binary search
/// finds the first event at or after the window's lower edge, and a single
/// comparison against the upper edge decides the outcome.
pub fn find_first_match(events: &Vec<Event>, g: &Gap) -> (r: Option<usize>)
    requires
        sorted_strict_ev(events@),
    ensures
        match r {
            Some(i) => i < events@.len() && first_match(events@, *g) == Some(i as int),
            None => first_match(events@, *g) is None,
        },
{
    let lo_bound: u64 = if g.start >= ATTRIBUTION_TOLERANCE_NS {
        g.start - ATTRIBUTION_TOLERANCE_NS
    } else {
        0
    };
    let sum1: u64 = if g.length <= u64::MAX - g.start {
        g.start + g.length
    } else {
        u64::MAX
    };
    let hi_bound: u64 = if ATTRIBUTION_TOLERANCE_NS <= u64::MAX - sum1 {
        sum1 + ATTRIBUTION_TOLERANCE_NS
    } else {
        u64::MAX
    };
    let idx = lower_bound_ev(events, lo_bound);
    if idx < events.len() && events[idx].timestamp <= hi_bound {
        proof {
            assert(in_window(events@[idx as int], *g));
            assert(forall|j: int| 0 <= j < idx ==> !in_window(events@[j], *g));
            lemma_first_match_is(events@, *g, idx as int);
        }
        Some(idx)
    } else {
        proof {
            assert forall|j: int| 0 <= j < events@.len() implies !in_window(events@[j], *g) by {
                if j < idx {
                    assert(events@[j].timestamp < lo_bound);
                } else {
                    assert(events@[idx as int].timestamp > hi_bound);
                    assert(events@[j].timestamp >= events@[idx as int].timestamp);
                }
            }
            lemma_first_match_none(events@, *g);
        }
        None
    }
}

/// Kinds appear at most once, in strictly ascending numeric order.
pub open spec fn kinds_ascending(t: Seq<(i32, Seq<u64>)>) -> bool {
    forall|i: int, j: int| 0 <= i < j < t.len() ==> t[i].0 < t[j].0
}

/// What appending a matched timestamp to its kind's timeline yields: a new
/// kind takes its place in ascending order with a one-element timeline; a
/// known kind gets the timestamp appended to its existing timeline.
pub open spec fn timeline_add(t: Seq<(i32, Seq<u64>)>, kind: i32, ts: u64) -> Seq<
    (i32, Seq<u64>),
>
    decreases t.len(),
{
    if t.len() == 0 {
        seq![(kind, seq![ts])]
    } else if kind < t[0].0 {
        seq![(kind, seq![ts])] + t
    } else if kind == t[0].0 {
        seq![(t[0].0, t[0].1.push(ts))] + t.drop_first()
    } else {
        seq![t[0]] + timeline_add(t.drop_first(), kind, ts)
    }
}

proof fn lemma_timeline_add_at(t: Seq<(i32, Seq<u64>)>, kind: i32, ts: u64, i: int)
    requires
        kinds_ascending(t),
        0 <= i <= t.len(),
        forall|j: int| 0 <= j < i ==> t[j].0 < kind,
        forall|j: int| i <= j < t.len() ==> t[j].0 >= kind,
    ensures
        i < t.len() && t[i].0 == kind ==> timeline_add(t, kind, ts) == t.update(
            i,
            (kind, t[i].1.push(ts)),
        ),
        !(i < t.len() && t[i].0 == kind) ==> timeline_add(t, kind, ts) == t.insert(
            i,
            (kind, seq![ts]),
        ),
    decreases t.len(),
{
    if t.len() == 0 {
        assert(timeline_add(t, kind, ts) =~= t.insert(0, (kind, seq![ts])));
    } else if i == 0 {
        if t[0].0 == kind {
            assert(timeline_add(t, kind, ts) =~= t.update(0, (kind, t[0].1.push(ts))));
        } else {
            assert(timeline_add(t, kind, ts) =~= t.insert(0, (kind, seq![ts])));
        }
    } else {
        assert(t[0].0 < kind);
        assert(kinds_ascending(t.drop_first()));
        lemma_timeline_add_at(t.drop_first(), kind, ts, i - 1);
        if i < t.len() && t[i].0 == kind {
            assert(t.drop_first().update(i - 1, (kind, t[i].1.push(ts))) =~= t.update(
                i,
                (kind, t[i].1.push(ts)),
            ).drop_first());
            assert(timeline_add(t, kind, ts) =~= t.update(i, (kind, t[i].1.push(ts))));
        } else {
            assert(t.drop_first().insert(i - 1, (kind, seq![ts])) =~= t.insert(
                i,
                (kind, seq![ts]),
            ).drop_first());
            assert(timeline_add(t, kind, ts) =~= t.insert(i, (kind, seq![ts])));
        }
    }
}

/// Mapping from event kind to the ordered sequence of attributed timestamps,
/// kinds held in strictly ascending numeric order. The timestamps appear in
/// the order the gaps that they explain were processed.
pub struct KindTimeline {
    pub entries: Vec<(i32, Vec<u64>)>,
}

impl View for KindTimeline {
    type V = Seq<(i32, Seq<u64>)>;

    open spec fn view(&self) -> Seq<(i32, Seq<u64>)> {
        self.entries@.map_values(|p: (i32, Vec<u64>)| (p.0, p.1@))
    }
}

impl KindTimeline {
    pub open spec fn wf(self) -> bool {
        kinds_ascending(self@)
    }

    pub fn new() -> (t: KindTimeline)
        ensures
            t.wf(),
            t@ == Seq::<(i32, Seq<u64>)>::empty(),
    {
        let t = KindTimeline { entries: Vec::new() };
        proof {
            assert(t@ =~= Seq::<(i32, Seq<u64>)>::empty());
        }
        t
    }

    /// Append one attributed timestamp to its kind's timeline, keeping the
    /// kinds in ascending order.
    pub fn record(&mut self, kind: i32, ts: u64)
        requires
            old(self).wf(),
        ensures
            final(self).wf(),
            final(self)@ == timeline_add(old(self)@, kind, ts),
    {
        let n = self.entries.len();
        let mut i: usize = 0;
        while i < n && self.entries[i].0 < kind
            invariant
                i <= n == self.entries@.len(),
                forall|j: int| 0 <= j < i ==> self.entries@[j].0 < kind,
            decreases n - i,
        {
            i = i + 1;
        }
        proof {
            assert forall|j: int| i <= j < self.entries@.len() implies self.entries@[j].0
                >= kind by {
                assert(self@[j].0 == self.entries@[j].0);
                if j > i {
                    assert(self@[i as int].0 < self@[j].0);
                }
            }
            assert(forall|j: int| 0 <= j < i ==> old(self)@[j].0 < kind);
            assert(forall|j: int| i <= j < old(self)@.len() ==> old(self)@[j].0 >= kind);
            lemma_timeline_add_at(old(self)@, kind, ts, i as int);
        }
        if i < n && self.entries[i].0 == kind {
            let pair = self.entries.remove(i);
            let mut times = pair.1;
            times.push(ts);
            self.entries.insert(i, (pair.0, times));
            proof {
                assert(self.entries@ =~= old(self).entries@.update(
                    i as int,
                    (kind, self.entries@[i as int].1),
                ));
                assert(self@ =~~= old(self)@.update(
                    i as int,
                    (kind, old(self)@[i as int].1.push(ts)),
                ));
            }
        } else {
            let times: Vec<u64> = vec![ts];
            self.entries.insert(i, (kind, times));
            proof {
                assert(self@ =~~= old(self)@.insert(i as int, (kind, seq![ts])));
            }
        }
    }
}

/// The valid events grouped by kind, each kind holding its timestamps in
/// event order.
pub open spec fn spec_group_by_kind(events: Seq<Event>) -> Seq<(i32, Seq<u64>)>
    decreases events.len(),
{
    if events.len() == 0 {
        Seq::<(i32, Seq<u64>)>::empty()
    } else {
        timeline_add(
            spec_group_by_kind(events.drop_last()),
            events.last().kind,
            events.last().timestamp,
        )
    }
}

/// Group the valid events by kind, kinds ascending: the source of the
/// operator-facing kind histogram (each kind's sample count is the length
/// of its timestamp list).
pub fn group_by_kind(events: &Vec<Event>) -> (t: KindTimeline)
    ensures
        t.wf(),
        t@ == spec_group_by_kind(events@),
{
    let mut t = KindTimeline::new();
    let n = events.len();
    let mut i: usize = 0;
    while i < n
        invariant
            i <= n == events@.len(),
            t.wf(),
            t@ == spec_group_by_kind(events@.take(i as int)),
        decreases n - i,
    {
        let e = events[i];
        proof {
            assert(events@.take(i + 1).drop_last() =~= events@.take(i as int));
            assert(events@.take(i + 1).last() == events@[i as int]);
        }
        t.record(e.kind, e.timestamp);
        i = i + 1;
    }
    proof {
        assert(events@.take(n as int) =~= events@);
    }
    t
}

/// Scalar statistics of one correlation pass.
#[derive(Clone, Copy, Debug, PartialEq, Eq, Structural)]
pub struct RunStats {
    pub total_gaps: usize,
    pub explained_gaps: usize,
    pub total_events: usize,
}

/// The outcome of correlating a prefix of the gap list: how many gaps an
/// event explained, and the per-kind timelines of the matched events.
pub open spec fn spec_correlate(gaps: Seq<Gap>, events: Seq<Event>) -> (int, Seq<
    (i32, Seq<u64>),
>)
    decreases gaps.len(),
{
    if gaps.len() == 0 {
        (0int, Seq::<(i32, Seq<u64>)>::empty())
    } else {
        let prev = spec_correlate(gaps.drop_last(), events);
        match first_match(events, gaps.last()) {
            None => prev,
            Some(i) => (prev.0 + 1, timeline_add(prev.1, events[i].kind, events[i].timestamp)),
        }
    }
}

/// Some event lies inside the gap's tolerance window.
pub open spec fn gap_explained(events: Seq<Event>, g: Gap) -> bool {
    exists|j: int| 0 <= j < events.len() && in_window(events[j], g)
}

/// At most one event explains each gap, so no more gaps are explained than
/// exist.
pub proof fn lemma_explained_le_total(gaps: Seq<Gap>, events: Seq<Event>)
    ensures
        0 <= spec_correlate(gaps, events).0 <= gaps.len(),
    decreases gaps.len(),
{
    if gaps.len() > 0 {
        lemma_explained_le_total(gaps.drop_last(), events);
    }
}

/// When every gap counts as explained, every gap really had an event inside
/// its tolerance window.
pub proof fn lemma_all_explained(gaps: Seq<Gap>, events: Seq<Event>)
    requires
        spec_correlate(gaps, events).0 == gaps.len(),
    ensures
        forall|k: int| 0 <= k < gaps.len() ==> gap_explained(events, #[trigger] gaps[k]),
    decreases gaps.len(),
{
    if gaps.len() > 0 {
        lemma_explained_le_total(gaps.drop_last(), events);
        match first_match(events, gaps.last()) {
            None => {
                assert(spec_correlate(gaps, events).0 <= gaps.len() - 1);
            },
            Some(i) => {
                lemma_all_explained(gaps.drop_last(), events);
                lemma_first_match_props(events, gaps.last());
                assert forall|k: int| 0 <= k < gaps.len() implies gap_explained(
                    events,
                    #[trigger] gaps[k],
                ) by {
                    if k < gaps.len() - 1 {
                        assert(gaps.drop_last()[k] == gaps[k]);
                        assert(gap_explained(events, gaps.drop_last()[k]));
                    } else {
                        assert(in_window(events[i], gaps[k]));
                    }
                }
            },
        }
    }
}

/// The timeline holds `ts` under `kind`.
pub open spec fn timeline_contains(t: Seq<(i32, Seq<u64>)>, kind: i32, ts: u64) -> bool {
    exists|i: int| 0 <= i < t.len() && t[i].0 == kind && t[i].1.contains(ts)
}

proof fn lemma_timeline_add_sources(
    t: Seq<(i32, Seq<u64>)>,
    kind: i32,
    ts: u64,
    kind0: i32,
    ts0: u64,
)
    requires
        timeline_contains(timeline_add(t, kind, ts), kind0, ts0),
    ensures
        timeline_contains(t, kind0, ts0) || (kind0 == kind && ts0 == ts),
    decreases t.len(),
{
    let r = timeline_add(t, kind, ts);
    let w = choose|w: int| 0 <= w < r.len() && r[w].0 == kind0 && r[w].1.contains(ts0);
    if t.len() == 0 {
        assert(r[w].1 == seq![ts]);
        assert(seq![ts][choose|c: int| 0 <= c < seq![ts].len() && seq![ts][c] == ts0] == ts);
    } else if kind < t[0].0 {
        if w == 0 {
            assert(r[0].1 == seq![ts]);
        } else {
            assert(r[w] == t[w - 1]);
        }
    } else if kind == t[0].0 {
        if w == 0 {
            assert(r[0].1 == t[0].1.push(ts));
            let c = choose|c: int| 0 <= c < r[0].1.len() && r[0].1[c] == ts0;
            if c < t[0].1.len() {
                assert(t[0].1.contains(ts0));
                assert(timeline_contains(t, kind0, ts0));
            } else {
                assert(ts0 == ts);
            }
        } else {
            assert(r[w] == t[w]);
        }
    } else {
        if w == 0 {
            assert(r[0] == t[0]);
        } else {
            assert(r[w] == timeline_add(t.drop_first(), kind, ts)[w - 1]);
            assert(timeline_contains(timeline_add(t.drop_first(), kind, ts), kind0, ts0));
            lemma_timeline_add_sources(t.drop_first(), kind, ts, kind0, ts0);
            if timeline_contains(t.drop_first(), kind0, ts0) {
                let v = choose|v: int|
                    0 <= v < t.drop_first().len() && t.drop_first()[v].0 == kind0
                        && t.drop_first()[v].1.contains(ts0);
                assert(t[v + 1] == t.drop_first()[v]);
            }
        }
    }
}

/// Every timestamp in the correlation timeline is the timestamp of some
/// event of the search domain, recorded under that event's kind.
pub proof fn lemma_correlate_sources(gaps: Seq<Gap>, events: Seq<Event>, kind0: i32, ts0: u64)
    requires
        timeline_contains(spec_correlate(gaps, events).1, kind0, ts0),
    ensures
        exists|j: int|
            0 <= j < events.len() && events[j].kind == kind0 && events[j].timestamp == ts0,
    decreases gaps.len(),
{
    if gaps.len() == 0 {
    } else {
        let prev = spec_correlate(gaps.drop_last(), events);
        match first_match(events, gaps.last()) {
            None => {
                lemma_correlate_sources(gaps.drop_last(), events, kind0, ts0);
            },
            Some(i) => {
                lemma_first_match_props(events, gaps.last());
                lemma_timeline_add_sources(
                    prev.1,
                    events[i].kind,
                    events[i].timestamp,
                    kind0,
                    ts0,
                );
                if timeline_contains(prev.1, kind0, ts0) {
                    lemma_correlate_sources(gaps.drop_last(), events, kind0, ts0);
                } else {
                    assert(events[i].kind == kind0 && events[i].timestamp == ts0);
                }
            },
        }
    }
}

/// Boundary exclusion is strict: a timestamp stands in the timeline only for
/// a drained sample whose raw timestamp lies strictly between the window's
/// `start` and `end`; a sample at or outside either bound is never
/// attributed.
pub proof fn lemma_boundary_exclusion(
    raw: Seq<RawEvent>,
    start: u64,
    end: u64,
    gaps: Seq<Gap>,
    kind: i32,
    ts: u64,
)
    requires
        timeline_contains(
            spec_correlate(gaps, spec_filter_rebase(raw, start, end)).1,
            kind,
            ts,
        ),
    ensures
        exists|j: int|
            0 <= j < raw.len() && raw[j].timestamp > start && raw[j].timestamp < end && raw[j].kind
                == kind && ts == raw[j].timestamp - start,
{
    let events = spec_filter_rebase(raw, start, end);
    lemma_correlate_sources(gaps, events, kind, ts);
    let i = choose|i: int|
        0 <= i < events.len() && events[i].kind == kind && events[i].timestamp == ts;
    lemma_filter_sources(raw, start, end);
    assert(comes_from(raw, start, end, events[i]));
    let j = choose|j: int|
        0 <= j < raw.len() && raw[j].timestamp > start && raw[j].timestamp < end
            && events[i].timestamp == raw[j].timestamp - start && events[i].kind == raw[j].kind;
    assert(raw[j].kind == kind && ts == raw[j].timestamp - start);
}

/// Correlation is a pure function of the immutable (gaps, events) snapshot:
/// two passes over the same snapshot yield identical statistics and
/// identical per-kind timelines.
pub proof fn lemma_correlate_idempotent(
    gaps: Seq<Gap>,
    events: Seq<Event>,
    r1: (int, Seq<(i32, Seq<u64>)>),
    r2: (int, Seq<(i32, Seq<u64>)>),
)
    requires
        r1 == spec_correlate(gaps, events),
        r2 == spec_correlate(gaps, events),
    ensures
        r1 == r2,
{
}

/// Correlate every gap with the earliest event inside its tolerance window,
/// if one exists. Returns the run statistics and the per-kind timelines of
/// the matched events, kinds in ascending order.
pub fn correlate(gaps: &Vec<Gap>, events: &Vec<Event>) -> (r: (RunStats, KindTimeline))
    requires
        sorted_strict_ev(events@),
    ensures
        r.0.total_gaps == gaps@.len(),
        r.0.total_events == events@.len(),
        r.0.explained_gaps == spec_correlate(gaps@, events@).0,
        r.1@ == spec_correlate(gaps@, events@).1,
        r.1.wf(),
        r.0.explained_gaps <= r.0.total_gaps,
{
    let mut explained: usize = 0;
    let mut timeline = KindTimeline::new();
    let n = gaps.len();
    let mut k: usize = 0;
    while k < n
        invariant
            k <= n == gaps@.len(),
            sorted_strict_ev(events@),
            explained <= k,
            explained == spec_correlate(gaps@.take(k as int), events@).0,
            timeline@ == spec_correlate(gaps@.take(k as int), events@).1,
            timeline.wf(),
        decreases n - k,
    {
        let g = gaps[k];
        proof {
            assert(gaps@.take(k + 1).drop_last() =~= gaps@.take(k as int));
            assert(gaps@.take(k + 1).last() == gaps@[k as int]);
        }
        match find_first_match(events, &g) {
            Some(i) => {
                let e = events[i];
                timeline.record(e.kind, e.timestamp);
                explained = explained + 1;
            },
            None => {},
        }
        k = k + 1;
    }
    proof {
        assert(gaps@.take(n as int) =~= gaps@);
    }
    let stats = RunStats { total_gaps: n, explained_gaps: explained, total_events: events.len() };
    (stats, timeline)
}

} // verus!
