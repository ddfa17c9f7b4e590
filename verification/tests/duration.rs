use rolly::Duration;

#[test]
fn durations_count_nanoseconds() {
    assert_eq!(Duration::from_secs(1).as_nanos(), 1_000_000_000);
    assert_eq!(Duration::from_millis(500).as_nanos(), 500_000_000);
    assert_eq!(Duration::from_nanos(7).as_nanos(), 7);
    assert_eq!(Duration::zero().as_nanos(), 0);
    assert_eq!(Duration::from_secs(1), Duration::from_millis(1000));
}

#[test]
fn durations_add_up_to_the_longest_one() {
    let sum = Duration::from_millis(100).saturating_add(&Duration::from_millis(10));
    assert_eq!(sum, Duration::from_millis(110));
    assert!(sum.at_least(&Duration::from_millis(110)));
    assert!(!sum.at_least(&Duration::from_millis(111)));
    let longest = Duration::from_secs(u64::MAX).saturating_add(&Duration::from_secs(u64::MAX));
    assert_eq!(longest.as_nanos(), std::time::Duration::MAX.as_nanos());
}
