use cortex::log_buffer::{LogBuffer, LogEntry, MessageParts, MAX_ENTRIES};

fn entry(i: u64) -> LogEntry {
    LogEntry {
        timestamp_ms: i,
        level: "INFO".into(),
        target: "navi".into(),
        message: format!("line {}", i),
    }
}

#[test]
fn recent_returns_newest_in_order() {
    let mut b = LogBuffer::new();
    for i in 0..5 {
        b.push(entry(i));
    }
    let r = b.recent(3);
    let ts: Vec<u64> = r.iter().map(|e| e.timestamp_ms).collect();
    assert_eq!(ts, vec![2, 3, 4]);
    assert_eq!(b.recent(100).len(), 5);
    assert!(b.recent(0).is_empty());
}

#[test]
fn buffer_drops_oldest_beyond_capacity() {
    let mut b = LogBuffer::new();
    for i in 0..(MAX_ENTRIES as u64 + 7) {
        b.push(entry(i));
    }
    assert_eq!(b.len(), MAX_ENTRIES);
    let all = b.recent(usize::MAX);
    assert_eq!(all.first().unwrap().timestamp_ms, 7);
    assert_eq!(all.last().unwrap().timestamp_ms, MAX_ENTRIES as u64 + 6);
    assert_eq!(b.recent(1)[0].message, format!("line {}", MAX_ENTRIES + 6));
}

#[test]
fn elapsed_ms_is_small_right_after_creation() {
    let b = LogBuffer::new();
    assert!(b.elapsed_ms() < 60_000);
}

#[test]
fn message_parts_compose() {
    let mut p = MessageParts::new();
    p.record("message", "\"motor enabled\"");
    assert_eq!(p.compose(), "\"motor enabled\"");
    p.record("can_id", "8");
    p.record("joint", "\"left\"");
    assert_eq!(p.compose(), "\"motor enabled\" can_id=8 joint=\"left\"");
}

#[test]
fn millis_cut_to_64_bits() {
    assert_eq!(cortex::log_buffer::millis_as_u64(1234), 1234);
    assert_eq!(cortex::log_buffer::millis_as_u64(u64::MAX as u128), u64::MAX);
    assert_eq!(cortex::log_buffer::millis_as_u64((1u128 << 64) + 5), 5);
}
