use bevy_autoplay::clock::{duration_of_nanos, elapsed_since, total_nanos, NANOS_PER_SEC};
use std::time::Duration;

#[test]
fn a_second_has_a_billion_nanoseconds() {
    assert_eq!(NANOS_PER_SEC, 1_000_000_000);
}

#[test]
fn total_nanos_counts_seconds_and_fraction() {
    assert_eq!(total_nanos(Duration::new(0, 0)), 0);
    assert_eq!(total_nanos(Duration::new(1, 5)), 1_000_000_005);
    assert_eq!(total_nanos(Duration::from_millis(1200)), 1_200_000_000);
    assert_eq!(
        total_nanos(Duration::new(u64::MAX, 999_999_999)),
        18_446_744_073_709_551_615_999_999_999
    );
}

#[test]
fn total_nanos_carries_whole_seconds_given_as_nanoseconds() {
    assert_eq!(total_nanos(Duration::new(2, 1_500_000_000)), 3_500_000_000);
}

#[test]
fn duration_of_nanos_inverts_total_nanos() {
    assert_eq!(duration_of_nanos(0), Duration::new(0, 0));
    assert_eq!(duration_of_nanos(1_000_000_005), Duration::new(1, 5));
    assert_eq!(duration_of_nanos(999_999_999), Duration::new(0, 999_999_999));
    assert_eq!(
        duration_of_nanos(18_446_744_073_709_551_615_999_999_999),
        Duration::new(u64::MAX, 999_999_999)
    );
}

#[test]
fn elapsed_since_subtracts() {
    assert_eq!(
        elapsed_since(Duration::from_millis(10_500), Duration::from_secs(10)),
        Duration::from_millis(500)
    );
    assert_eq!(
        elapsed_since(Duration::new(5, 100), Duration::new(4, 200)),
        Duration::new(0, 999_999_900)
    );
    assert_eq!(
        elapsed_since(Duration::from_secs(7), Duration::from_secs(7)),
        Duration::ZERO
    );
}
