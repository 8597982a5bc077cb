use std::time::Duration;
use iroh_bitswap::instant::Instant;

#[test]
fn test_mocking() {
    // The mocked reference clock, and the slot for a published recent time.
    let mut mock: u64 = 0;
    let mut published: u64 = 0;

    let t0 = Instant::now(mock);
    mock += 42;
    let t1 = Instant::now(mock);

    assert_eq!(t0.0, 0);
    assert_eq!(t1.0, 42);

    let t2 = Instant::recent(published, mock);
    mock += 420;
    let t3 = Instant::recent(published, mock);

    assert_eq!(t2.0, 42);
    assert_eq!(t3.0, 462);

    published = 1440;
    let t4 = Instant::recent(published, mock);
    assert_eq!(t4.0, 1440);
}

#[test]
fn durations_between_instants() {
    let early = Instant(1_000);
    let late = Instant(1_500_000_700);
    assert_eq!(late.duration_since(early), Duration::new(1, 499_999_700));
    assert_eq!(late.checked_duration_since(early), Some(Duration::from_nanos(1_499_999_700)));
    assert_eq!(early.checked_duration_since(late), None);
    assert_eq!(early.checked_duration_since(early), Some(Duration::new(0, 0)));
    assert_eq!(late.saturating_duration_since(early), Duration::from_nanos(1_499_999_700));
    assert_eq!(early.saturating_duration_since(late), Duration::new(0, 0));
}

#[test]
fn instants_moved_by_durations() {
    let t = Instant(100);
    assert_eq!(t.checked_add(Duration::from_nanos(42)), Some(Instant(142)));
    assert_eq!(t.checked_add(Duration::from_nanos(u64::MAX - 100)), Some(Instant(u64::MAX)));
    assert_eq!(t.checked_add(Duration::from_nanos(u64::MAX - 99)), None);
    assert_eq!(t.checked_sub(Duration::from_nanos(100)), Some(Instant(0)));
    assert_eq!(t.checked_sub(Duration::from_nanos(101)), None);
    // only the low 64 bits of a duration's nanoseconds count
    let long = Duration::new(18_446_744_073, 709_551_616 + 5);
    assert_eq!(long.as_nanos(), (1u128 << 64) + 5);
    assert_eq!(t.checked_add(long), Some(Instant(105)));
    assert!(Instant(1) < Instant(2));
}

#[test]
fn instants_by_operators() {
    let t = Instant(1_000);
    assert_eq!(t + Duration::from_nanos(5), Instant(1_005));
    assert_eq!(t - Duration::from_nanos(5), Instant(995));
    assert_eq!(Instant(1_005) - t, Duration::from_nanos(5));
    assert_eq!(Instant::recent(0, 17), Instant(17));
    assert_eq!(Instant::recent(3, 17), Instant(3));
}

#[test]
fn an_instant_as_a_timestamp() {
    let t = Instant(3_000_000_042).into_timestamp();
    assert_eq!(t.seconds, 3);
    assert_eq!(t.nanos, 42);
    let t = Instant(u64::MAX).into_timestamp();
    assert_eq!(t.seconds, 18_446_744_073);
    assert_eq!(t.nanos, 709_551_615);
    let t = Instant(0).into_timestamp();
    assert_eq!((t.seconds, t.nanos), (0, 0));
}
