use irqgaps::events::decode_event;
use irqgaps::events::filter_rebase;
use irqgaps::events::DecodeError;
use irqgaps::events::Event;
use irqgaps::events::EventLog;
use irqgaps::events::RawEvent;

#[test]
fn decode_little_endian_key_and_value() {
    let key = vec![0x15, 0xCD, 0x5B, 0x07, 0x00, 0x00, 0x00, 0x00];
    let value = vec![7, 0, 0, 0];
    let e = decode_event(&key, &value).unwrap();
    assert_eq!(e.timestamp, 123456789);
    assert_eq!(e.kind, 7);
}

#[test]
fn decode_maximal_timestamp() {
    let key = vec![0xFF; 8];
    let value = vec![1, 0, 0, 0];
    let e = decode_event(&key, &value).unwrap();
    assert_eq!(e.timestamp, u64::MAX);
}

#[test]
fn decode_negative_kind() {
    let key = vec![0; 8];
    let e = decode_event(&key, &vec![0xFF, 0xFF, 0xFF, 0xFF]).unwrap();
    assert_eq!(e.kind, -1);
    let e = decode_event(&key, &vec![0x00, 0x00, 0x00, 0x80]).unwrap();
    assert_eq!(e.kind, i32::MIN);
    let e = decode_event(&key, &vec![0xFF, 0xFF, 0xFF, 0x7F]).unwrap();
    assert_eq!(e.kind, i32::MAX);
}

#[test]
fn decode_ignores_trailing_bytes() {
    let key = vec![42, 0, 0, 0, 0, 0, 0, 0, 0xAB];
    let value = vec![5, 0, 0, 0, 0xCD];
    let e = decode_event(&key, &value).unwrap();
    assert_eq!(e.timestamp, 42);
    assert_eq!(e.kind, 5);
}

#[test]
fn decode_short_key_is_rejected() {
    let key = vec![1, 2, 3, 4, 5, 6, 7];
    let value = vec![0, 0, 0, 0];
    assert_eq!(decode_event(&key, &value), Err(DecodeError::KeyTooShort));
}

#[test]
fn decode_short_value_is_rejected() {
    let key = vec![0; 8];
    let value = vec![1, 2, 3];
    assert_eq!(decode_event(&key, &value), Err(DecodeError::ValueTooShort));
}

#[test]
fn log_keeps_entries_sorted_by_timestamp() {
    let mut log = EventLog::new();
    log.insert(RawEvent { timestamp: 300, kind: 3 });
    log.insert(RawEvent { timestamp: 100, kind: 1 });
    log.insert(RawEvent { timestamp: 200, kind: 2 });
    let ts: Vec<u64> = log.entries.iter().map(|e| e.timestamp).collect();
    assert_eq!(ts, vec![100, 200, 300]);
}

#[test]
fn log_collapses_equal_timestamps_last_write_wins() {
    let mut log = EventLog::new();
    log.insert(RawEvent { timestamp: 100, kind: 1 });
    log.insert(RawEvent { timestamp: 100, kind: 2 });
    assert_eq!(log.entries, vec![RawEvent { timestamp: 100, kind: 2 }]);
}

#[test]
fn filter_excludes_boundaries_strictly() {
    let mut log = EventLog::new();
    for (ts, kind) in [(50, 1), (100, 2), (101, 3), (150, 4), (199, 5), (200, 6), (250, 7)] {
        log.insert(RawEvent { timestamp: ts, kind });
    }
    let events = filter_rebase(&log, 100, 200);
    assert_eq!(
        events,
        vec![
            Event { timestamp: 1, kind: 3 },
            Event { timestamp: 50, kind: 4 },
            Event { timestamp: 99, kind: 5 },
        ]
    );
}

#[test]
fn filter_of_empty_log_is_empty() {
    let log = EventLog::new();
    assert_eq!(filter_rebase(&log, 0, 1000), vec![]);
}
