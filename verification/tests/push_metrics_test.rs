use deltio::push::metrics::{PushMetrics, DURATION_BUCKETS};
use deltio::time::Duration;

#[test]
fn records_outcomes_and_buckets() {
    let mut m = PushMetrics::new();
    m.record(true, Duration::from_millis(3)); // <= 0.005 -> bucket 0
    m.record(true, Duration::from_millis(30)); // <= 0.05 -> bucket 3
    m.record(false, Duration::from_secs(20)); // > 10 -> +Inf bucket (last)

    let s = m.snapshot();
    assert_eq!(s.dispatch_success, 2);
    assert_eq!(s.dispatch_failure, 1);
    assert_eq!(s.duration_count, 3);
    assert_eq!(s.duration_buckets[0], 1);
    assert_eq!(s.duration_buckets[3], 1);
    assert_eq!(s.duration_buckets[DURATION_BUCKETS - 1], 1);
}

#[test]
fn every_duration_falls_into_one_bucket() {
    let mut m = PushMetrics::new();
    // A bound belongs to its own bucket.
    m.record(true, Duration::from_millis(5));
    m.record(true, Duration::from_millis(6));
    m.record(false, Duration::from_secs(10));
    let s = m.snapshot();
    assert_eq!(s.duration_buckets, [1, 1, 0, 0, 0, 0, 0, 0, 0, 0, 1, 0]);
    assert_eq!(s.duration_sum_micros, 10_011_000);
    assert_eq!(s.duration_count, s.dispatch_success + s.dispatch_failure);
}

#[test]
fn figures_are_the_totals_of_all_pushes() {
    let mut m = PushMetrics::new();
    for i in 0..100u64 {
        m.record(i % 4 == 0, Duration::from_millis(i));
    }
    let s = m.snapshot();
    assert_eq!(s.dispatch_success, 25);
    assert_eq!(s.dispatch_failure, 75);
    assert_eq!(s.duration_buckets, [6, 5, 15, 25, 49, 0, 0, 0, 0, 0, 0, 0]);
    assert_eq!(s.duration_sum_micros, 4_950_000);
    assert_eq!(s.duration_count, 100);
    assert_eq!(s.duration_count, s.duration_buckets.iter().sum::<u64>());
}
