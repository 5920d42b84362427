//! The time that events carry.
use crate::event::Timestamp;
use vstd::prelude::*;

verus! {

/// A source of the time.
pub trait Clock {
    /// The time.
    fn now(&self) -> Timestamp;
}

/// The time of the machine.
#[derive(Clone, Copy, PartialEq, Eq, Structural, Debug)]
pub struct SystemClock;

/// `jiff::Timestamp::now`, with `as_millisecond` and `subsec_nanosecond`. Nothing is stated of the
/// time.
#[verifier::external_body]
fn instant_now() -> (i64, i32) {
    let t = jiff::Timestamp::now();
    (t.as_millisecond(), t.subsec_nanosecond())
}

/// A point in time from its milliseconds since 1970 and the nanoseconds of its second.
pub fn stamp(millis: i64, subsec: i32) -> (t: Timestamp)
    ensures
        t.millis == millis,
        t.nanos == rest_of(subsec as int),
        -1_000_000 < t.nanos < 1_000_000,
{
    let nanos: i32 = if subsec >= 0 {
        subsec % 1_000_000
    } else {
        let above: i64 = -(subsec as i64);
        (-(above % 1_000_000)) as i32
    };
    Timestamp { millis, nanos }
}

/// What is left of nanoseconds beyond whole milliseconds, with their sign.
pub open spec fn rest_of(subsec: int) -> int {
    if subsec >= 0 {
        subsec % 1_000_000
    } else {
        -((-subsec) % 1_000_000)
    }
}

impl Clock for SystemClock {
    fn now(&self) -> (t: Timestamp)
        ensures
            -1_000_000 < t.nanos < 1_000_000,
    {
        let (millis, subsec) = instant_now();
        stamp(millis, subsec)
    }
}

/// A time that stands still.
#[derive(Clone, Copy, PartialEq, Eq, Structural, Debug)]
pub struct FrozenClock(Timestamp);

impl FrozenClock {
    /// The time at which the clock stands.
    pub closed spec fn at(self) -> Timestamp {
        self.0
    }

    /// A clock that stands at the given time.
    pub fn new(at: Timestamp) -> (c: FrozenClock)
        ensures
            c.at() == at,
    {
        FrozenClock(at)
    }
}

impl Default for FrozenClock {
    /// A clock that stands at the start of 1970.
    fn default() -> (c: FrozenClock)
        ensures
            c.at() == (Timestamp { millis: 0, nanos: 0 }),
    {
        FrozenClock(Timestamp { millis: 0, nanos: 0 })
    }
}

impl Clock for FrozenClock {
    fn now(&self) -> (t: Timestamp)
        ensures
            t == self.at(),
    {
        self.0
    }
}

/// A stamp keeps the part of the second that is under a millisecond: it lies on the same side of
/// zero, and what is left out is whole milliseconds.
pub proof fn stamps_keep_what_is_under_a_millisecond(subsec: int)
    ensures
        -1_000_000 < rest_of(subsec) < 1_000_000,
        (subsec - rest_of(subsec)) % 1_000_000 == 0,
        subsec >= 0 ==> rest_of(subsec) >= 0,
        subsec <= 0 ==> rest_of(subsec) <= 0,
{
}

} // verus!
