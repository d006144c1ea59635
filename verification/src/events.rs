//! The event side of a run: decoding drained (key, value) byte pairs into
//! timestamped samples, collapsing samples that share a raw timestamp into a
//! key-unique store, and filtering/rebasing the store into the sorted search
//! domain the correlator works on.

use vstd::prelude::*;

verus! {

/// An interrupt-class sample as drained from the event source: a raw
/// clock timestamp in nanoseconds and an integer kind code.
#[derive(Clone, Copy, Debug, PartialEq, Eq, Structural)]
pub struct RawEvent {
    pub timestamp: u64,
    pub kind: i32,
}

/// A sample after preprocessing: the timestamp is rebased to an offset from
/// the measurement window's start.
#[derive(Clone, Copy, Debug, PartialEq, Eq, Structural)]
pub struct Event {
    pub timestamp: u64,
    pub kind: i32,
}

/// Why a drained (key, value) pair could not be decoded. A malformed sample
/// is surfaced to the caller, who may abort the run or skip the one sample;
/// the library itself never drops data silently.
#[derive(Clone, Copy, Debug, PartialEq, Eq, Structural)]
pub enum DecodeError {
    KeyTooShort,
    ValueTooShort,
}

/// Value of a little-endian byte sequence: byte 0 is least significant.
pub open spec fn le_bytes_val(s: Seq<u8>) -> int
    decreases s.len(),
{
    if s.len() == 0 {
        0
    } else {
        s[0] + 256 * le_bytes_val(s.drop_first())
    }
}

pub open spec fn pow256(n: nat) -> nat
    decreases n,
{
    if n == 0 {
        1nat
    } else {
        256 * pow256((n - 1) as nat)
    }
}

proof fn lemma_le_bytes_bound(s: Seq<u8>)
    ensures
        0 <= le_bytes_val(s) < pow256(s.len()),
    decreases s.len(),
{
    if s.len() > 0 {
        lemma_le_bytes_bound(s.drop_first());
    }
}

proof fn lemma_pow256_mono(a: nat, b: nat)
    requires
        a <= b,
    ensures
        pow256(a) <= pow256(b),
    decreases b,
{
    if a < b {
        lemma_pow256_mono(a, (b - 1) as nat);
    }
}

/// The signed 32-bit value of a 4-byte little-endian sequence, two's
/// complement.
pub open spec fn i32_le_val(s: Seq<u8>) -> int {
    let v = le_bytes_val(s);
    if v < 0x80000000 {
        v
    } else {
        v - 0x100000000
    }
}

/// The unsigned value of the first `count` bytes of `bytes`, read
/// little-endian. Bytes past `count` are ignored.
pub fn decode_le(bytes: &Vec<u8>, count: usize) -> (r: u64)
    requires
        count <= 8,
        bytes@.len() >= count,
    ensures
        r == le_bytes_val(bytes@.take(count as int)),
{
    let ghost s = bytes@.take(count as int);
    let mut acc: u64 = 0;
    let mut i: usize = count;
    while i > 0
        invariant
            i <= count <= 8,
            bytes@.len() >= count,
            s == bytes@.take(count as int),
            acc == le_bytes_val(s.skip(i as int)),
            acc < pow256((count - i) as nat),
        decreases i,
    {
        i = i - 1;
        proof {
            assert(s.skip(i as int).drop_first() =~= s.skip(i + 1));
            assert(s.skip(i as int)[0] == bytes@[i as int]);
            lemma_pow256_mono((count - i - 1) as nat, 7);
            assert(pow256(7) == 0x100000000000000) by {
                reveal_with_fuel(pow256, 8);
            }
        }
        acc = acc * 256 + (bytes[i] as u64);
        proof {
            lemma_pow256_mono((count - i) as nat, 8);
            assert(pow256(8) == 0x10000000000000000) by {
                reveal_with_fuel(pow256, 9);
            }
        }
    }
    proof {
        assert(s.skip(0) =~= s);
    }
    acc
}

/// Decode one drained (key, value) pair: the key's first eight bytes are a
/// little-endian unsigned 64-bit timestamp, the value's first four bytes a
/// little-endian signed 32-bit kind code. Succeeds exactly when both
/// prefixes are present; extra bytes are ignored.
pub fn decode_event(key: &Vec<u8>, value: &Vec<u8>) -> (r: Result<RawEvent, DecodeError>)
    ensures
        r is Ok <==> (key@.len() >= 8 && value@.len() >= 4),
        key@.len() < 8 ==> r == Err::<RawEvent, DecodeError>(DecodeError::KeyTooShort),
        key@.len() >= 8 && value@.len() < 4 ==> r == Err::<RawEvent, DecodeError>(
            DecodeError::ValueTooShort,
        ),
        r matches Ok(e) ==> e.timestamp == le_bytes_val(key@.take(8)) && e.kind as int
            == i32_le_val(value@.take(4)),
{
    if key.len() < 8 {
        return Err(DecodeError::KeyTooShort);
    }
    if value.len() < 4 {
        return Err(DecodeError::ValueTooShort);
    }
    let timestamp = decode_le(key, 8);
    let v = decode_le(value, 4);
    proof {
        lemma_le_bytes_bound(value@.take(4));
        assert(pow256(4) == 0x100000000) by {
            reveal_with_fuel(pow256, 5);
        }
    }
    let kind: i32 = if v < 0x80000000 {
        v as i32
    } else {
        let diff: u64 = 0x100000000u64 - v;
        if diff == 0x80000000 {
            i32::MIN
        } else {
            -(diff as i32)
        }
    };
    Ok(RawEvent { timestamp, kind })
}

/// Raw samples are in strictly ascending timestamp order (and so key-unique).
pub open spec fn sorted_strict_raw(s: Seq<RawEvent>) -> bool {
    forall|i: int, j: int| 0 <= i < j < s.len() ==> s[i].timestamp < s[j].timestamp
}

/// Rebased events are in strictly ascending timestamp order.
pub open spec fn sorted_strict_ev(s: Seq<Event>) -> bool {
    forall|i: int, j: int| 0 <= i < j < s.len() ==> s[i].timestamp < s[j].timestamp
}

/// What inserting a sample into the timestamp-keyed store yields: a sample
/// with a fresh timestamp takes its sorted place; one whose timestamp is
/// already present replaces the stored kind (last write wins).
pub open spec fn log_insert(s: Seq<RawEvent>, e: RawEvent) -> Seq<RawEvent>
    decreases s.len(),
{
    if s.len() == 0 {
        seq![e]
    } else if e.timestamp < s[0].timestamp {
        seq![e] + s
    } else if e.timestamp == s[0].timestamp {
        seq![e] + s.drop_first()
    } else {
        seq![s[0]] + log_insert(s.drop_first(), e)
    }
}

/// First index whose timestamp is at least `ts`.
fn lower_bound_raw(entries: &Vec<RawEvent>, ts: u64) -> (i: usize)
    requires
        sorted_strict_raw(entries@),
    ensures
        i <= entries@.len(),
        forall|j: int| 0 <= j < i ==> entries@[j].timestamp < ts,
        forall|j: int| i <= j < entries@.len() ==> entries@[j].timestamp >= ts,
{
    let mut lo: usize = 0;
    let mut hi: usize = entries.len();
    while lo < hi
        invariant
            lo <= hi <= entries@.len(),
            sorted_strict_raw(entries@),
            forall|j: int| 0 <= j < lo ==> entries@[j].timestamp < ts,
            forall|j: int| hi <= j < entries@.len() ==> entries@[j].timestamp >= ts,
        decreases hi - lo,
    {
        let mid = lo + (hi - lo) / 2;
        if entries[mid].timestamp < ts {
            lo = mid + 1;
        } else {
            hi = mid;
        }
    }
    lo
}

proof fn lemma_log_insert_at(s: Seq<RawEvent>, e: RawEvent, i: int)
    requires
        sorted_strict_raw(s),
        0 <= i <= s.len(),
        forall|j: int| 0 <= j < i ==> s[j].timestamp < e.timestamp,
        forall|j: int| i <= j < s.len() ==> s[j].timestamp >= e.timestamp,
    ensures
        i < s.len() && s[i].timestamp == e.timestamp ==> log_insert(s, e) == s.update(i, e),
        !(i < s.len() && s[i].timestamp == e.timestamp) ==> log_insert(s, e) == s.insert(i, e),
    decreases s.len(),
{
    if s.len() == 0 {
        assert(log_insert(s, e) =~= s.insert(0, e));
    } else if i == 0 {
        if s[0].timestamp == e.timestamp {
            assert(log_insert(s, e) =~= s.update(0, e));
        } else {
            assert(log_insert(s, e) =~= s.insert(0, e));
        }
    } else {
        assert(s[0].timestamp < e.timestamp);
        assert(sorted_strict_raw(s.drop_first()));
        lemma_log_insert_at(s.drop_first(), e, i - 1);
        if i < s.len() && s[i].timestamp == e.timestamp {
            assert(s.drop_first().update(i - 1, e) =~= s.update(i, e).drop_first());
            assert(log_insert(s, e) =~= s.update(i, e));
        } else {
            assert(s.drop_first().insert(i - 1, e) =~= s.insert(i, e).drop_first());
            assert(log_insert(s, e) =~= s.insert(i, e));
        }
    }
}

/// The collapse policy in one statement: after an insertion the store holds
/// the new sample; it keeps exactly the old samples whose timestamp differs
/// (last write wins on a shared timestamp); and it holds nothing else.
pub proof fn lemma_log_insert_semantics(s: Seq<RawEvent>, e: RawEvent)
    requires
        sorted_strict_raw(s),
    ensures
        log_insert(s, e).contains(e),
        forall|x: RawEvent|
            s.contains(x) && x.timestamp != e.timestamp ==> log_insert(s, e).contains(x),
        forall|x: RawEvent|
            log_insert(s, e).contains(x) ==> x == e || (s.contains(x) && x.timestamp
                != e.timestamp),
    decreases s.len(),
{
    let r = log_insert(s, e);
    if s.len() == 0 {
        assert(r[0] == e);
    } else if e.timestamp < s[0].timestamp {
        assert(r[0] == e);
        assert forall|x: RawEvent| s.contains(x) && x.timestamp != e.timestamp implies r.contains(
            x,
        ) by {
            let j = choose|j: int| 0 <= j < s.len() && s[j] == x;
            assert(r[j + 1] == x);
        }
        assert forall|x: RawEvent| r.contains(x) implies x == e || (s.contains(x) && x.timestamp
            != e.timestamp) by {
            let j = choose|j: int| 0 <= j < r.len() && r[j] == x;
            if j > 0 {
                assert(s[j - 1] == x);
                assert(s[j - 1].timestamp >= s[0].timestamp);
            }
        }
    } else if e.timestamp == s[0].timestamp {
        assert(r[0] == e);
        assert forall|x: RawEvent| s.contains(x) && x.timestamp != e.timestamp implies r.contains(
            x,
        ) by {
            let j = choose|j: int| 0 <= j < s.len() && s[j] == x;
            assert(j > 0);
            assert(r[j] == s.drop_first()[j - 1]);
        }
        assert forall|x: RawEvent| r.contains(x) implies x == e || (s.contains(x) && x.timestamp
            != e.timestamp) by {
            let j = choose|j: int| 0 <= j < r.len() && r[j] == x;
            if j > 0 {
                assert(s[j] == x);
                assert(s[j].timestamp > s[0].timestamp);
            }
        }
    } else {
        assert(sorted_strict_raw(s.drop_first()));
        lemma_log_insert_semantics(s.drop_first(), e);
        let rec = log_insert(s.drop_first(), e);
        assert forall|x: RawEvent| s.contains(x) && x.timestamp != e.timestamp implies r.contains(
            x,
        ) by {
            let j = choose|j: int| 0 <= j < s.len() && s[j] == x;
            if j == 0 {
                assert(r[0] == x);
            } else {
                assert(s.drop_first()[j - 1] == x);
                assert(s.drop_first().contains(x));
                assert(rec.contains(x));
                let m = choose|m: int| 0 <= m < rec.len() && rec[m] == x;
                assert(r[m + 1] == x);
            }
        }
        let m0 = choose|m: int| 0 <= m < rec.len() && rec[m] == e;
        assert(r[m0 + 1] == e);
        assert forall|x: RawEvent| r.contains(x) implies x == e || (s.contains(x) && x.timestamp
            != e.timestamp) by {
            let j = choose|j: int| 0 <= j < r.len() && r[j] == x;
            if j == 0 {
                assert(s[0] == x);
                assert(s[0].timestamp < e.timestamp);
            } else {
                assert(rec[j - 1] == x);
                assert(rec.contains(x));
                if x != e {
                    assert(s.drop_first().contains(x));
                    let m = choose|m: int|
                        0 <= m < s.drop_first().len() && s.drop_first()[m] == x;
                    assert(s[m + 1] == x);
                }
            }
        }
    }
}

/// The key-unique event store: samples collapse by raw timestamp, last write
/// wins, and the entries stay in strictly ascending timestamp order.
pub struct EventLog {
    pub entries: Vec<RawEvent>,
}

impl EventLog {
    pub open spec fn wf(self) -> bool {
        sorted_strict_raw(self.entries@)
    }

    pub fn new() -> (log: EventLog)
        ensures
            log.wf(),
            log.entries@.len() == 0,
    {
        EventLog { entries: Vec::new() }
    }

    /// Record one sample. Two samples with the same raw timestamp collapse
    /// into one entry carrying the later-inserted kind.
    pub fn insert(&mut self, e: RawEvent)
        requires
            old(self).wf(),
        ensures
            final(self).wf(),
            final(self).entries@ == log_insert(old(self).entries@, e),
    {
        let i = lower_bound_raw(&self.entries, e.timestamp);
        proof {
            lemma_log_insert_at(self.entries@, e, i as int);
        }
        if i < self.entries.len() && self.entries[i].timestamp == e.timestamp {
            let _ = self.entries.remove(i);
            self.entries.insert(i, e);
            proof {
                assert(final(self).entries@ =~= old(self).entries@.update(i as int, e));
            }
        } else {
            self.entries.insert(i, e);
        }
    }
}

/// The correlator's search domain built from the store: entries with a raw
/// timestamp strictly inside `(start, end)` are kept, rebased to an offset
/// from `start`, in ascending order; everything else is discarded.
pub open spec fn spec_filter_rebase(s: Seq<RawEvent>, start: u64, end: u64) -> Seq<Event>
    decreases s.len(),
{
    if s.len() == 0 {
        Seq::<Event>::empty()
    } else {
        let rest = spec_filter_rebase(s.drop_last(), start, end);
        let e = s.last();
        if start < e.timestamp && e.timestamp < end {
            rest.push(Event { timestamp: (e.timestamp - start) as u64, kind: e.kind })
        } else {
            rest
        }
    }
}

proof fn lemma_filter_sorted(s: Seq<RawEvent>, start: u64, end: u64)
    requires
        sorted_strict_raw(s),
    ensures
        sorted_strict_ev(spec_filter_rebase(s, start, end)),
        spec_filter_rebase(s, start, end).len() > 0 ==> s.len() > 0 && spec_filter_rebase(
            s,
            start,
            end,
        ).last().timestamp + start <= s.last().timestamp,
    decreases s.len(),
{
    if s.len() > 0 {
        assert(sorted_strict_raw(s.drop_last()));
        lemma_filter_sorted(s.drop_last(), start, end);
        let rest = spec_filter_rebase(s.drop_last(), start, end);
        let e = s.last();
        if start < e.timestamp && e.timestamp < end {
            let ev = Event { timestamp: (e.timestamp - start) as u64, kind: e.kind };
            if rest.len() > 0 {
                assert(s.drop_last().last() == s[s.len() - 2]);
                assert(s[s.len() - 2].timestamp < s.last().timestamp);
                assert(rest.last().timestamp < ev.timestamp);
            }
            assert(sorted_strict_ev(rest.push(ev)));
        } else {
            if rest.len() > 0 {
                assert(s.drop_last().last().timestamp <= s.last().timestamp);
            }
        }
    }
}

/// The rebased event is the image of some stored sample lying strictly
/// inside the window's bounds.
pub open spec fn comes_from(raw: Seq<RawEvent>, start: u64, end: u64, e: Event) -> bool {
    exists|j: int|
        0 <= j < raw.len() && raw[j].timestamp > start && raw[j].timestamp < end && e.timestamp
            == raw[j].timestamp - start && e.kind == raw[j].kind
}

/// Every event in the search domain is the rebased image of a stored sample
/// strictly inside the window: nothing at or outside the bounds survives.
pub proof fn lemma_filter_sources(raw: Seq<RawEvent>, start: u64, end: u64)
    ensures
        forall|k: int|
            0 <= k < spec_filter_rebase(raw, start, end).len() ==> comes_from(
                raw,
                start,
                end,
                #[trigger] spec_filter_rebase(raw, start, end)[k],
            ),
    decreases raw.len(),
{
    if raw.len() > 0 {
        lemma_filter_sources(raw.drop_last(), start, end);
        let rest = spec_filter_rebase(raw.drop_last(), start, end);
        let res = spec_filter_rebase(raw, start, end);
        assert forall|k: int| 0 <= k < res.len() implies comes_from(
            raw,
            start,
            end,
            #[trigger] res[k],
        ) by {
            if k < rest.len() {
                assert(comes_from(raw.drop_last(), start, end, rest[k]));
                let j = choose|j: int|
                    0 <= j < raw.drop_last().len() && raw.drop_last()[j].timestamp > start
                        && raw.drop_last()[j].timestamp < end && rest[k].timestamp
                        == raw.drop_last()[j].timestamp - start && rest[k].kind
                        == raw.drop_last()[j].kind;
                assert(raw[j] == raw.drop_last()[j]);
            } else {
                assert(res[k].timestamp == raw.last().timestamp - start);
                assert(raw[raw.len() - 1] == raw.last());
            }
        }
    }
}

/// Build the correlator's search domain: keep exactly the samples whose raw
/// timestamp lies strictly between the window's `start` and `end`, rebase
/// each to an offset from `start`, sorted ascending. Boundary exclusion is
/// strict on both sides: a sample at `start` or at `end` is discarded.
pub fn filter_rebase(log: &EventLog, start: u64, end: u64) -> (events: Vec<Event>)
    requires
        log.wf(),
    ensures
        events@ == spec_filter_rebase(log.entries@, start, end),
        sorted_strict_ev(events@),
{
    let mut out: Vec<Event> = Vec::new();
    let n = log.entries.len();
    let mut i: usize = 0;
    while i < n
        invariant
            i <= n == log.entries@.len(),
            log.wf(),
            out@ == spec_filter_rebase(log.entries@.take(i as int), start, end),
        decreases n - i,
    {
        let e = log.entries[i];
        proof {
            assert(log.entries@.take(i + 1).drop_last() =~= log.entries@.take(i as int));
            assert(log.entries@.take(i + 1).last() == log.entries@[i as int]);
        }
        if start < e.timestamp && e.timestamp < end {
            out.push(Event { timestamp: e.timestamp - start, kind: e.kind });
        }
        i = i + 1;
    }
    proof {
        assert(log.entries@.take(n as int) =~= log.entries@);
        lemma_filter_sorted(log.entries@, start, end);
    }
    out
}

} // verus!
