//! Moments in time, as nanoseconds since the Unix epoch in UTC.

use vstd::prelude::*;

verus! {

/// One second, in nanoseconds.
pub const SECOND: i128 = 1_000_000_000;

/// One minute, in nanoseconds.
pub const MINUTE: i128 = 60_000_000_000;

/// The most whole minutes a `chrono::TimeDelta` can hold, either way: it
/// holds up to `i64::MAX` milliseconds.
pub const MOST_MINUTES: i64 = 153_722_867_280_912;

/// How far from the epoch a moment may sit and still be added to safely.
pub const FAR: i128 = 0x8_0000_0000_0000_0000_0000_0000; // 2^99

/// A moment: nanoseconds since 1970-01-01 00:00:00 UTC.
#[derive(Clone, Copy, Debug, PartialEq, Eq, Structural)]
pub struct Moment {
    pub nanos: i128,
}

impl View for Moment {
    type V = int;

    open spec fn view(&self) -> int {
        self.nanos as int
    }
}

impl Moment {
    /// Near enough to the epoch for the arithmetic here. Every moment a
    /// calendar can name is.
    pub open spec fn fits(self) -> bool {
        -FAR <= self.nanos <= FAR
    }

    /// The moment `seconds` after the epoch.
    pub fn from_seconds(seconds: i64) -> (m: Moment)
        ensures
            m.nanos == seconds * SECOND,
            m.fits(),
    {
        Moment { nanos: seconds as i128 * SECOND }
    }
}

/// A number of minutes as a span, or `None` when `chrono::TimeDelta` could
/// not hold it.
pub open spec fn span_of(minutes: int) -> Option<int> {
    if -MOST_MINUTES <= minutes <= MOST_MINUTES {
        Some(minutes * MINUTE)
    } else {
        None
    }
}

/// `TimeDelta::try_minutes`, in nanoseconds.
pub fn span(minutes: i64) -> (r: Option<i128>)
    ensures
        match r {
            Some(n) => span_of(minutes as int) == Some(n as int),
            None => span_of(minutes as int) is None,
        },
        r matches Some(n) ==> -MOST_MINUTES * MINUTE <= n <= MOST_MINUTES * MINUTE,
{
    if -MOST_MINUTES <= minutes && minutes <= MOST_MINUTES {
        assert(-MOST_MINUTES * MINUTE <= minutes * MINUTE <= MOST_MINUTES * MINUTE) by (nonlinear_arith)
            requires
                -MOST_MINUTES <= minutes <= MOST_MINUTES,
        ;
        Some(minutes as i128 * MINUTE)
    } else {
        None
    }
}

} // verus!
