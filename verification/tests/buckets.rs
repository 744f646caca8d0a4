use event_storage::buckets::{Events, RecordType};

#[test]
fn storage_test_new_events_initializes_with_zero_values() {
    let start_time: u64 = 0;
    let events = Events::new_with_time(start_time);

    let report = events.report();
    assert_eq!(report.len(), 8);
    for value in report.iter() {
        assert_eq!(*value, 0);
    }
}

#[test]
fn storage_test_record_high_increments_all_buckets() {
    let start_time: u64 = 0;
    let mut events = Events::new_with_time(start_time);

    events.record_at_time(RecordType::High, start_time);

    let report = events.report();
    for value in report.iter() {
        assert_eq!(*value, 1);
    }
}

#[test]
fn storage_test_record_low_does_not_increment_buckets() {
    let start_time: u64 = 0;
    let mut events = Events::new_with_time(start_time);

    events.record_at_time(RecordType::Low, start_time);

    let report = events.report();
    for value in report.iter() {
        assert_eq!(*value, 0);
    }
}

#[test]
fn storage_test_multiple_high_records_increment_correctly() {
    let start_time: u64 = 0;
    let mut events = Events::new_with_time(start_time);

    events.record_at_time(RecordType::High, start_time);
    events.record_at_time(RecordType::High, start_time + 100);
    events.record_at_time(RecordType::High, start_time + 200);

    let report = events.report();
    for value in report.iter() {
        assert_eq!(*value, 3);
    }
}

#[test]
fn storage_test_bucket_cleaning_after_cutoff_time() {
    let start_time: u64 = 0;
    let mut events = Events::new_with_time(start_time);

    // Record a high event
    events.record_at_time(RecordType::High, start_time);

    // First bucket has 500ms cutoff, advance time beyond that
    let future_time = start_time + 600;
    events.record_at_time(RecordType::Low, future_time);

    let report = events.report();
    // First bucket (500ms cutoff) should be decremented to 0
    assert_eq!(report[0], 0);
    // Other buckets should still be 1
    for i in 1..8 {
        assert_eq!(report[i], 1);
    }
}

#[test]
fn storage_test_bucket_cleaning_multiple_buckets() {
    let start_time: u64 = 0;
    let mut events = Events::new_with_time(start_time);

    // Record a high event
    events.record_at_time(RecordType::High, start_time);

    // Advance time beyond second bucket cutoff (1000ms)
    let future_time = start_time + 1100;
    events.record_at_time(RecordType::Low, future_time);

    let report = events.report();
    // First two buckets (500ms, 1000ms cutoffs) should be decremented to 0
    assert_eq!(report[0], 0);
    assert_eq!(report[1], 0);
    // Other buckets should still be 1
    for i in 2..8 {
        assert_eq!(report[i], 1);
    }
}

#[test]
fn storage_test_bucket_values_do_not_go_negative() {
    let start_time: u64 = 0;
    let mut events = Events::new_with_time(start_time);

    // Don't record any events, just advance time
    let future_time = start_time + 600;
    events.record_at_time(RecordType::Low, future_time);

    let report = events.report();
    // All buckets should remain at 0
    for value in report.iter() {
        assert_eq!(*value, 0);
    }
}

#[test]
fn storage_test_incremental_bucket_decay() {
    let start_time: u64 = 0;
    let mut events = Events::new_with_time(start_time);

    // Record multiple high events
    events.record_at_time(RecordType::High, start_time);
    events.record_at_time(RecordType::High, start_time + 100);
    events.record_at_time(RecordType::High, start_time + 200);

    // All buckets should have value 3
    let report = events.report();
    for value in report.iter() {
        assert_eq!(*value, 3);
    }

    // Advance time beyond first bucket cutoff
    let future_time = start_time + 600;
    events.record_at_time(RecordType::Low, future_time);

    let report = events.report();
    // First bucket should decrement by 1 to value 2
    assert_eq!(report[0], 2);
    // Other buckets should still be 3
    for i in 1..8 {
        assert_eq!(report[i], 3);
    }
}

#[test]
fn storage_test_all_buckets_decay_over_long_time() {
    let start_time: u64 = 0;
    let mut events = Events::new_with_time(start_time);

    // Record a high event
    events.record_at_time(RecordType::High, start_time);

    // Advance time beyond all bucket cutoffs (past 300s)
    let future_time = start_time + 301_000;
    events.record_at_time(RecordType::Low, future_time);

    let report = events.report();
    // All buckets should be decremented to 0
    for value in report.iter() {
        assert_eq!(*value, 0);
    }
}

#[test]
fn test_mixed_record_types() {
    let start_time: u64 = 0;
    let mut events = Events::new_with_time(start_time);

    events.record_at_time(RecordType::High, start_time);
    events.record_at_time(RecordType::Low, start_time + 100);
    events.record_at_time(RecordType::High, start_time + 200);
    events.record_at_time(RecordType::Low, start_time + 300);

    let report = events.report();
    // Should have 2 high events recorded
    for value in report.iter() {
        assert_eq!(*value, 2);
    }
}
