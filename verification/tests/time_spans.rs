use arbiter::time::{Duration, TimerSchedule, MAX_NANOS};

#[test]
fn spans_convert_between_units() {
    assert_eq!(Duration::from_secs(3).as_nanos(), 3_000_000_000);
    assert_eq!(Duration::from_millis(25).as_nanos(), 25_000_000);
    assert_eq!(Duration::from_nanos(7).as_nanos(), 7);
    assert_eq!(Duration::from_millis(1500).as_millis(), 1500);
    assert!(Duration::zero().is_zero());
    assert!(!Duration::from_nanos(1).is_zero());
}

#[test]
fn saturating_mul_multiplies_and_caps() {
    assert_eq!(Duration::from_millis(10).saturating_mul(3), Duration::from_millis(30));
    assert_eq!(Duration::from_secs(u64::MAX).saturating_mul(2).as_nanos(), MAX_NANOS);
    assert_eq!(Duration::from_millis(5).saturating_mul(0), Duration::zero());
}

#[test]
fn min_max_and_exceeds_compare_lengths() {
    let short = Duration::from_millis(10);
    let long = Duration::from_millis(25);
    assert_eq!(short.min(long), short);
    assert_eq!(long.min(short), short);
    assert_eq!(short.max(long), long);
    assert!(long.exceeds(&short));
    assert!(!short.exceeds(&long));
    assert!(!short.exceeds(&short));
}

#[test]
fn interval_schedules_tick_at_least_every_millisecond() {
    let fast = TimerSchedule::Interval { period: Duration::from_nanos(10) };
    assert_eq!(fast.tick_period(), Some(Duration::from_millis(1)));
    let slow = TimerSchedule::Interval { period: Duration::from_millis(10) };
    assert_eq!(slow.tick_period(), Some(Duration::from_millis(10)));
    let once = TimerSchedule::Once { delay: Duration::from_millis(10) };
    assert_eq!(once.tick_period(), None);
}
