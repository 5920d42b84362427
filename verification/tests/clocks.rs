use openteam::clock::{stamp, Clock, FrozenClock, SystemClock};
use openteam::event::Timestamp;
use openteam::mock::clock::{seconds_of, FrozenClock as StillClock, MockClock, SystemClock as WallClock};

fn jiff_of(at: Timestamp) -> jiff::Timestamp {
    jiff::Timestamp::from_millisecond(at.millis).unwrap()
}

#[test]
fn frozen_clock_always_returns_its_instant() {
    let at: jiff::Timestamp = "2026-07-17T00:00:00Z".parse().unwrap();
    let instant = Timestamp {
        millis: at.as_millisecond(),
        nanos: 0,
    };
    let clock = FrozenClock::new(instant);
    assert_eq!(clock.now(), instant);
    assert_eq!(clock.now(), instant);
    assert_eq!(jiff_of(clock.now()).to_string(), "2026-07-17T00:00:00Z");
    assert_eq!(jiff_of(FrozenClock::default().now()), jiff::Timestamp::UNIX_EPOCH);
}

#[test]
fn system_clock_is_monotone_enough_for_a_breadcrumb() {
    let clock = SystemClock;
    let a = clock.now();
    let b = clock.now();
    assert!((b.millis, b.nanos) >= (a.millis, a.nanos));
    assert!(a.nanos < 1_000_000);
}

#[test]
fn frozen_clock_returns_its_instant() {
    assert_eq!(StillClock(1_752_710_400).unix_seconds(), 1_752_710_400);
}

#[test]
fn system_clock_is_past_2020() {
    assert!(WallClock.unix_seconds() > 1_577_836_800);
}

#[test]
fn a_time_before_1970_counts_as_zero() {
    assert_eq!(seconds_of(Some(1_577_836_801)), 1_577_836_801);
    assert_eq!(seconds_of(None), 0);
}

#[test]
fn stamps_keep_the_nanoseconds_beyond_the_millisecond() {
    let late = stamp(1_752_710_400_123, 123_456_789);
    assert_eq!((late.millis, late.nanos), (1_752_710_400_123, 456_789));
    let early = stamp(-1, -1_500_000);
    assert_eq!((early.millis, early.nanos), (-1, -500_000));
    for text in ["2026-07-17T00:00:00.123456789Z", "1969-12-31T23:59:59.9985Z"] {
        let at: jiff::Timestamp = text.parse().unwrap();
        let t = stamp(at.as_millisecond(), at.subsec_nanosecond());
        let nanos = i128::from(t.millis) * 1_000_000 + i128::from(t.nanos);
        assert_eq!(nanos, at.as_nanosecond());
    }
}
