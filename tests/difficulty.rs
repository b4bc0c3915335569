use pow_engine::difficulty::{retarget, DifficultyState};

#[test]
fn retarget_on_schedule_keeps_difficulty() {
    assert_eq!(retarget(100, 600, 600, 4), 100);
    assert_eq!(retarget(1, 10, 10, 4), 1);
    assert_eq!(retarget(u64::MAX, 600, 600, 4), u64::MAX);
}

#[test]
fn retarget_fast_blocks_raise_difficulty() {
    assert_eq!(retarget(100, 600, 300, 4), 200);
}

#[test]
fn retarget_slow_blocks_lower_difficulty() {
    assert_eq!(retarget(100, 600, 1200, 4), 50);
}

#[test]
fn retarget_is_clamped_both_ways() {
    assert_eq!(retarget(100, 600, 6000, 4), 25);
    assert_eq!(retarget(100, 600, 60, 4), 400);
    assert_eq!(retarget(100, 600, 0, 4), 400);
}

#[test]
fn retarget_never_goes_below_one() {
    assert_eq!(retarget(1, 10, 11, 4), 1);
    assert_eq!(retarget(3, 10, 1000, 4), 1);
}

#[test]
fn retarget_upper_bound_saturates() {
    assert_eq!(retarget(u64::MAX / 2, 600, 1, 4), u64::MAX);
}

#[test]
fn retarget_stays_within_bounds_for_many_inputs() {
    for d in [1u64, 2, 7, 100, 12345] {
        for actual in [0u64, 1, 50, 600, 601, 5000, 100000] {
            let r = retarget(d, 600, actual, 4);
            let lo = if d / 4 >= 1 { d / 4 } else { 1 };
            assert!(r >= lo && r <= d * 4, "d={} actual={} r={}", d, actual, r);
        }
    }
}

#[test]
fn new_clamps_malformed_settings() {
    let s = DifficultyState::new(0, 0, 0, 0, 7);
    assert_eq!(s.difficulty, 1);
    assert_eq!(s.interval, 1);
    assert_eq!(s.target_block_time, 1);
    assert_eq!(s.max_factor, 1);
    assert_eq!(s.since_retarget, 0);
    assert_eq!(s.window_start, 7);
    let t = DifficultyState::new(5, 4, u64::MAX, 2, 0);
    assert_eq!(t.target_block_time, u64::MAX / 4);
}

#[test]
fn record_block_retargets_at_interval() {
    let mut s = DifficultyState::new(100, 3, 10, 4, 1000);
    s.record_block(1010);
    s.record_block(1020);
    assert_eq!(s.difficulty, 100);
    assert_eq!(s.since_retarget, 2);
    s.record_block(1015);
    // 30 time units planned, 15 passed: twice as hard.
    assert_eq!(s.difficulty, 200);
    assert_eq!(s.since_retarget, 0);
    assert_eq!(s.window_start, 1015);
}

#[test]
fn record_block_with_clock_going_back_raises_to_bound() {
    let mut s = DifficultyState::new(100, 1, 10, 4, 1000);
    s.record_block(900);
    assert_eq!(s.difficulty, 400);
}
