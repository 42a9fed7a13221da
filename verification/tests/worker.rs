use httpmark::worker::{keep_running, pace, Pace};

#[test]
fn worker_runs_until_stop_or_deadline() {
    assert!(keep_running(false, 0, 10));
    assert!(!keep_running(false, 10, 10));
    assert!(!keep_running(true, 0, 10));
}

#[test]
fn pace_follows_rate_and_ramp() {
    assert!(matches!(pace(0, 0, 0), Pace::Unlimited));
    assert!(matches!(pace(0, 5, 10), Pace::Unlimited));
    assert!(matches!(pace(100, 5, 0), Pace::Full));
    assert!(matches!(pace(100, 10, 10), Pace::Full));
    assert!(matches!(pace(100, 5, 10), Pace::Ramping));
}

use httpmark::units::{size_unit, time_unit, SizeUnit, TimeUnit};

#[test]
fn time_units_change_at_thousands() {
    assert!(matches!(time_unit(0), TimeUnit::Micros));
    assert!(matches!(time_unit(999), TimeUnit::Micros));
    assert!(matches!(time_unit(1_000), TimeUnit::Millis));
    assert!(matches!(time_unit(999_999), TimeUnit::Millis));
    assert!(matches!(time_unit(1_000_000), TimeUnit::Seconds));
    assert!(matches!(time_unit(u64::MAX), TimeUnit::Seconds));
}

#[test]
fn size_units_change_at_powers_of_two() {
    assert!(matches!(size_unit(0), SizeUnit::Bytes));
    assert!(matches!(size_unit(1_023), SizeUnit::Bytes));
    assert!(matches!(size_unit(1_024), SizeUnit::Kilobytes));
    assert!(matches!(size_unit(1_048_575), SizeUnit::Kilobytes));
    assert!(matches!(size_unit(1_048_576), SizeUnit::Megabytes));
}
