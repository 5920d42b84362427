//! The time that replies carry.
use vstd::prelude::*;

verus! {

/// A source of the time in seconds since 1970.
pub trait MockClock {
    /// The time.
    fn unix_seconds(&self) -> u64;
}

/// The time of the machine.
#[derive(Clone, Copy, PartialEq, Eq, Structural, Debug)]
pub struct SystemClock;

/// `SystemTime::elapsed` of the Unix epoch, in whole seconds: the time since 1970, or nothing where
/// the machine's time is earlier. Nothing is stated of the result.
#[verifier::external_body]
fn seconds_since_epoch() -> Option<u64> {
    std::time::UNIX_EPOCH.elapsed().ok().map(|elapsed| elapsed.as_secs())
}

/// The seconds that a reply carries for the seconds since 1970: a time before 1970 counts as zero.
pub fn seconds_of(since: Option<u64>) -> (n: u64)
    ensures
        n == (match since {
            Some(s) => s,
            None => 0,
        }),
{
    match since {
        Some(s) => s,
        None => 0,
    }
}

impl MockClock for SystemClock {
    fn unix_seconds(&self) -> (n: u64) {
        seconds_of(seconds_since_epoch())
    }
}

/// A time that stands still.
#[derive(Clone, Copy, PartialEq, Eq, Structural, Debug)]
pub struct FrozenClock(pub u64);

impl MockClock for FrozenClock {
    fn unix_seconds(&self) -> (n: u64)
        ensures
            n == self.0,
    {
        self.0
    }
}

} // verus!
