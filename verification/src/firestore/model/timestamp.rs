//! Points in time with nanosecond precision.
use vstd::prelude::*;

use crate::platform::runtime::now_since_epoch;

verus! {

/// Seconds and nanoseconds since the Unix epoch.
#[derive(Clone, Copy, Debug, PartialEq, Eq, Hash, Structural)]
pub struct Timestamp {
    pub seconds: i64,
    pub nanos: i32,
}

impl Timestamp {
    pub fn new(seconds: i64, nanos: i32) -> (t: Self)
        ensures
            t.seconds == seconds,
            t.nanos == nanos,
    {
        Timestamp { seconds, nanos }
    }

    /// The current time, as read from the system clock (zero when the clock
    /// reads before the epoch).
    pub fn now() -> (t: Self)
        ensures
            0 <= t.nanos < 1_000_000_000,
    {
        let (seconds, nanos) = now_since_epoch();
        #[verifier::truncate]
        let s = seconds as i64;
        Timestamp { seconds: s, nanos: nanos as i32 }
    }
}

} // verus!
