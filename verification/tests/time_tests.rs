use pvped::time::{day_start, Timestamp, MAX_DAY, MIN_DAY, SECS_PER_DAY, UNIX_EPOCH_DAY};

#[test]
fn timestamp_accepts_ordinary_instant() {
    let t = Timestamp::new(1_700_000_000, 123).unwrap();
    assert_eq!(t.secs(), 1_700_000_000);
    assert_eq!(t.nanos(), 123);
}

#[test]
fn timestamp_leap_second_only_at_end_of_minute() {
    assert!(Timestamp::new(59, 1_500_000_000).is_some());
    assert!(Timestamp::new(58, 1_000_000_000).is_none());
    assert!(Timestamp::new(59, 2_000_000_000).is_none());
}

#[test]
fn timestamp_range_matches_chrono() {
    let first = (MIN_DAY - UNIX_EPOCH_DAY) * SECS_PER_DAY;
    assert!(Timestamp::new(first, 0).is_some());
    assert!(Timestamp::new(first - 1, 0).is_none());
    let last = (MAX_DAY - UNIX_EPOCH_DAY) * SECS_PER_DAY + SECS_PER_DAY - 1;
    assert!(Timestamp::new(last, 0).is_some());
    assert!(Timestamp::new(last + 1, 0).is_none());
    assert!(Timestamp::new(i64::MAX, 0).is_none());
    assert!(Timestamp::new(i64::MIN, 0).is_none());
}

#[test]
fn day_of_epoch_and_before() {
    assert_eq!(Timestamp::new(0, 0).unwrap().day(), 719_163);
    assert_eq!(Timestamp::new(86_399, 0).unwrap().day(), 719_163);
    assert_eq!(Timestamp::new(86_400, 0).unwrap().day(), 719_164);
    assert_eq!(Timestamp::new(-1, 0).unwrap().day(), 719_162);
    // 2024-03-01 12:00:00 UTC
    assert_eq!(Timestamp::new(1_709_294_400, 0).unwrap().day(), 738_946);
}

#[test]
fn day_start_is_midnight() {
    assert_eq!(day_start(719_163), 0);
    assert_eq!(day_start(738_946), 1_709_251_200);
    assert_eq!(day_start(719_162), -86_400);
}

#[test]
fn day_start_of_day_lies_on_that_day() {
    let t = Timestamp::new(1_709_294_400, 5).unwrap();
    let d = t.day();
    assert_eq!(Timestamp::new(day_start(d), 0).unwrap().day(), d);
}

#[test]
fn is_before_orders_by_seconds_then_nanos() {
    let a = Timestamp::new(10, 5).unwrap();
    let b = Timestamp::new(10, 6).unwrap();
    let c = Timestamp::new(11, 0).unwrap();
    assert!(a.is_before(&b));
    assert!(b.is_before(&c));
    assert!(!b.is_before(&a));
    assert!(!a.is_before(&a));
}
