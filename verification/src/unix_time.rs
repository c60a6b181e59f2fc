//! Points in time.

use vstd::prelude::*;

verus! {

/// How many nanoseconds a second has.
pub const NANOS_PER_SECOND: i128 = 1_000_000_000;

/// A point in time: the nanoseconds since the Unix epoch, negative before it.
#[derive(Clone, Copy, Debug, PartialEq, Eq, Structural)]
pub struct UnixTime {
    pub nanos: i128,
}

impl UnixTime {
    /// The point in time that lies this many seconds after the epoch.
    pub fn from_epoch_seconds(seconds: u64) -> (time: UnixTime)
        ensures
            time.nanos == seconds * NANOS_PER_SECOND,
    {
        UnixTime { nanos: seconds as i128 * NANOS_PER_SECOND }
    }

    /// The whole seconds since the epoch, unless the time lies before it.
    ///
    /// A time lies within the range of the system clock, so the seconds fit.
    pub fn epoch_seconds(self) -> (seconds: Option<u64>)
        requires
            self.nanos / NANOS_PER_SECOND <= u64::MAX,
        ensures
            seconds == (if self.nanos < 0 {
                None
            } else {
                Some((self.nanos / NANOS_PER_SECOND) as u64)
            }),
            seconds matches Some(seconds) ==> seconds * 1_000_000_000 <= self.nanos < (seconds + 1)
                * 1_000_000_000,
    {
        if self.nanos < 0 {
            None
        } else {
            Some((self.nanos / NANOS_PER_SECOND) as u64)
        }
    }
}

} // verus!
