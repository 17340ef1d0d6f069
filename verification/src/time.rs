use vstd::prelude::*;

verus! {

/// Nanoseconds in one second.
pub const NANOS_PER_SECOND: u64 = 1_000_000_000;

/// A point in time, measured in whole nanoseconds since the UNIX epoch.
///
/// All arithmetic is exact integer arithmetic; the constructors and
/// operations require that the result fits in the 64-bit nanosecond
/// counter, so no operation can silently wrap.
#[derive(Clone, Copy, Debug, PartialEq, Eq, Structural)]
pub struct Timestamp {
    nanos: u64,
}

impl Timestamp {
    /// The nanosecond count, for use in specifications.
    pub closed spec fn spec_nanos(self) -> u64 {
        self.nanos
    }

    /// Nanoseconds since the UNIX epoch.
    #[verifier::when_used_as_spec(spec_nanos)]
    pub fn nanos(self) -> (n: u64)
        ensures
            n == self.spec_nanos(),
    {
        self.nanos
    }

    /// The instant `nanos` nanoseconds after the UNIX epoch.
    pub fn from_nanos(nanos: u64) -> (t: Self)
        ensures
            t.spec_nanos() == nanos,
    {
        Timestamp { nanos }
    }

    /// The instant `seconds` whole seconds after the UNIX epoch.
    pub fn from_seconds(seconds: u64) -> (t: Self)
        requires
            seconds * NANOS_PER_SECOND <= u64::MAX,
        ensures
            t.spec_nanos() == seconds * NANOS_PER_SECOND,
    {
        Timestamp { nanos: seconds * NANOS_PER_SECOND }
    }

    /// This instant moved `addition` nanoseconds into the future.
    pub fn plus_nanos(self, addition: u64) -> (t: Self)
        requires
            self.spec_nanos() + addition <= u64::MAX,
        ensures
            t.spec_nanos() == self.spec_nanos() + addition,
    {
        Timestamp { nanos: self.nanos + addition }
    }

    /// This instant moved `subtrahend` nanoseconds into the past.
    pub fn minus_nanos(self, subtrahend: u64) -> (t: Self)
        requires
            subtrahend <= self.spec_nanos(),
        ensures
            t.spec_nanos() == self.spec_nanos() - subtrahend,
    {
        Timestamp { nanos: self.nanos - subtrahend }
    }

    /// This instant moved `addition` seconds into the future.
    pub fn plus_seconds(self, addition: u64) -> (t: Self)
        requires
            self.spec_nanos() + addition * NANOS_PER_SECOND <= u64::MAX,
        ensures
            t.spec_nanos() == self.spec_nanos() + addition * NANOS_PER_SECOND,
    {
        Timestamp { nanos: self.nanos + addition * NANOS_PER_SECOND }
    }
}

} // verus!
