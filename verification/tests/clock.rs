use glide::clock::{Clock, Duration, Instant};

#[test]
fn spans_split_into_seconds_and_nanoseconds() {
    let span = Duration::from_millis(1_250);
    assert_eq!(span.as_secs(), 1);
    assert_eq!(span.subsec_nanos(), 250_000_000);
    let longest = Duration::from_millis(u64::MAX);
    assert_eq!(longest.as_secs(), 18_446_744_073_709_551);
    assert_eq!(longest.subsec_nanos(), 615_000_000);
    assert_eq!(Duration::from_secs(3), Duration::from_millis(3_000));
    assert!(Duration::from_millis(999).is_shorter_than(&Duration::from_secs(1)));
    assert_eq!(
        Duration::from_millis(1).plus(&Duration::from_secs(1)),
        Duration::from_millis(1_001)
    );
}

#[test]
fn instants_saturate_at_the_latest() {
    let latest = Instant::since_origin(u64::MAX, 0);
    assert_eq!(latest, Instant::since_origin(i64::MAX as u64, 999_999_999));
    assert!(Instant::since_origin(i64::MAX as u64, 999_999_998).is_before(&latest));
}

#[test]
fn time_between_instants_is_never_negative() {
    let early = Instant::since_origin(10, 0);
    let late = Instant::since_origin(12, 500_000_000);
    assert_eq!(late.duration_since(early), Duration::from_millis(2_500));
    assert_eq!(early.duration_since(late), Duration::from_millis(0));
}

#[test]
fn cutoff_goes_back_by_the_span() {
    let now = Instant::since_origin(10, 0);
    assert_eq!(now.cutoff(Duration::from_secs(4)), Instant::since_origin(6, 0));
    // Instants before the origin can be represented too.
    let before = now.cutoff(Duration::from_secs(11));
    assert!(before.is_before(&Instant::since_origin(0, 0)));
    assert_eq!(now.duration_since(before), Duration::from_secs(11));
}

#[test]
fn cutoff_that_cannot_be_represented_is_now() {
    let now = Instant::since_origin(10, 0);
    assert_eq!(now.checked_sub(Duration::from_secs(u64::MAX)), None);
    assert_eq!(now.cutoff(Duration::from_secs(u64::MAX)), now);
    let span = Duration::from_secs(i64::MAX as u64);
    assert!(now.checked_sub(span).is_some());
}

#[test]
fn clock_starts_near_its_origin_and_moves_forward() {
    let clock = Clock::start();
    let first = clock.now();
    assert!(first.is_before(&Instant::since_origin(60, 0)));
    let mut later = clock.now();
    while !first.is_before(&later) {
        later = clock.now();
    }
    assert!(!later.is_before(&first));
}
