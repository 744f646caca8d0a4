use event_storage::estimator::{Events, RecordType};

// A full pass over the reporting pipeline: two warm-up samples establish the cadence,
// one positive sample shows up in every window, and twelve further negative
// samples push it out of the shortest (1000 ms) window only.
#[test]
fn end_to_end_beacon_scenario() {
    let mut events = Events::default();

    events.record_at_time(RecordType::Low, 0);
    events.record_at_time(RecordType::Low, 100);
    events.record_at_time(RecordType::High, 200);
    events.record_at_time(RecordType::Low, 300);
    events.record_at_time(RecordType::Low, 400);
    events.record_at_time(RecordType::Low, 500);

    let report = events.as_bytes();
    assert_eq!(report, [1, 1, 1, 1, 1, 1, 1, 1]);

    for i in 0..12 {
        events.record_at_time(RecordType::Low, 600 + i * 100);
    }

    let report = events.as_bytes();
    assert_eq!(report, [0, 1, 1, 1, 1, 1, 1, 1]);
}

// Steady positive records at a fixed 100 ms cadence: once the run exceeds a
// window's span, that window reports exactly its sample-count estimate.
#[test]
fn steady_cadence_exact_counts() {
    let mut events = Events::default();
    for i in 0..12u64 {
        events.record_at_time(RecordType::High, i * 100);
    }
    // Window widths at 100 ms cadence: 10, 50, 300, ... so the shortest
    // window saturates at 10 while the others still hold all 12 records.
    let report = events.as_bytes();
    assert_eq!(report, [10, 12, 12, 12, 12, 12, 12, 12]);
}

// Recording far more samples than the log's capacity must not grow memory,
// must not crash, and must cap every count at the retained history.
#[test]
fn buffer_exhaustion_saturates_counts() {
    let mut events = Events::default();
    for i in 0..3100u64 {
        events.record_at_time(RecordType::High, i * 100);
    }
    // Widths at 100 ms cadence: 10, 50, 300, 600, 1200, 2400, 3600, 6000;
    // the last two are capped by the 3000-sample log.
    let report = events.as_bytes();
    assert_eq!(report, [10, 50, 300, 600, 1200, 2400, 3000, 3000]);
}

// Before two timestamps have been recorded the report stays all zero, even
// for positive samples.
#[test]
fn insufficient_history_keeps_report_zero() {
    let mut events = Events::default();
    events.record_at_time(RecordType::High, 0);
    assert_eq!(events.as_bytes(), [0; 8]);
    events.record_at_time(RecordType::High, 100);
    assert_eq!(events.as_bytes(), [0; 8]);
}

// The identifier carries the report counters in big-endian order.
#[test]
fn uuid_packs_report_big_endian() {
    let mut events = Events::default();

    let fresh = events.as_uuid();
    assert_eq!(*fresh.as_bytes(), [0u8; 16]);

    for i in 0..300u64 {
        events.record_at_time(RecordType::High, i * 100);
    }
    // Counts: min(300, width) per window = [10, 50, 300, 300, ...].
    assert_eq!(events.as_bytes(), [10, 50, 300, 300, 300, 300, 300, 300]);

    let id = events.as_uuid();
    let expected: [u8; 16] = [
        0, 10, 0, 50, 1, 44, 1, 44, 1, 44, 1, 44, 1, 44, 1, 44,
    ];
    assert_eq!(*id.as_bytes(), expected);
}
