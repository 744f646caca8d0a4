use event_storage::measurements::Measurements;

#[test]
fn new_measurements_sum_to_zero() {
    let m = Measurements::new();
    assert_eq!(m.sum(), 0);
}

#[test]
fn sum_adds_retained_measurements() {
    let mut m = Measurements::new();
    m.add(1);
    m.add(1);
    m.add(0);
    m.add(1);
    assert_eq!(m.sum(), 3);
}

#[test]
fn lock_suppresses_conditional_adds_only() {
    let mut m = Measurements::new();
    m.add_if_unlocked(1);
    m.lock();
    m.add_if_unlocked(1);
    assert_eq!(m.sum(), 1);
    // A direct add ignores the lock, as the sensor path does.
    m.add(1);
    assert_eq!(m.sum(), 2);
    m.unlock();
    m.add_if_unlocked(1);
    assert_eq!(m.sum(), 3);
}

#[test]
fn old_measurements_fall_out_of_the_log() {
    let mut m = Measurements::new();
    // Thirty ones, of which only the most recent twenty-five are retained.
    for _ in 0..30 {
        m.add(1);
    }
    assert_eq!(m.sum(), 25);

    // Twenty-five zeroes push every one out again.
    for _ in 0..25 {
        m.add(0);
    }
    assert_eq!(m.sum(), 0);
}
