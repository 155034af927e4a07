//! Small general helpers: a nanosecond-precise time span and a sink for
//! results that are deliberately ignored.

use vstd::prelude::*;

verus! {

/// A span of time held as whole seconds plus a sub-second remainder in
/// nanoseconds, always normalised so that the remainder is below one second.
pub struct Duration {
    secs: u64,
    nanos: u32,
}

pub const NANOS_PER_SEC: u64 = 1_000_000_000;

impl Duration {
    #[verifier::type_invariant]
    spec fn normalised(self) -> bool {
        self.nanos < NANOS_PER_SEC
    }

    pub closed spec fn spec_secs(self) -> u64 {
        self.secs
    }

    pub closed spec fn spec_subsec_nanos(self) -> u32 {
        self.nanos
    }

    /// Builds a span from a total nanosecond count, carrying whole seconds
    /// out of the sub-second part.
    pub fn from_nanos(nanos: u64) -> (d: Duration)
        ensures
            d.spec_secs() == nanos / NANOS_PER_SEC,
            d.spec_subsec_nanos() == nanos % NANOS_PER_SEC,
    {
        Duration { secs: nanos / NANOS_PER_SEC, nanos: (nanos % NANOS_PER_SEC) as u32 }
    }

    pub fn as_secs(&self) -> (s: u64)
        ensures
            s == self.spec_secs(),
    {
        self.secs
    }

    pub fn subsec_nanos(&self) -> (n: u32)
        ensures
            n == self.spec_subsec_nanos(),
    {
        self.nanos
    }
}

/// Swallows a value, usually a `Result` whose failure is deliberately
/// tolerated, such as a probe for an archive that is not present.
pub fn ignore<T>(value: T) {
}

} // verus!
