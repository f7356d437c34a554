use vstd::prelude::*;

verus! {

/// An elapsed time with whole-second resolution.
#[derive(Clone, Copy, Debug, PartialEq, Eq, Structural)]
pub struct Duration {
    secs: u64,
}

impl Duration {
    /// The number of whole seconds this duration spans.
    pub closed spec fn spec_secs(self) -> nat {
        self.secs as nat
    }

    /// The empty duration.
    pub fn zero() -> (r: Duration)
        ensures
            r.spec_secs() == 0,
    {
        Duration { secs: 0 }
    }

    pub fn from_secs(secs: u64) -> (r: Duration)
        ensures
            r.spec_secs() == secs,
    {
        Duration { secs }
    }

    pub fn as_secs(&self) -> (r: u64)
        ensures
            r == self.spec_secs(),
    {
        self.secs
    }

    /// The sum of two durations, capped at `u64::MAX` seconds.
    pub fn saturating_add(self, other: Duration) -> (r: Duration)
        ensures
            r.spec_secs() == saturate(self.spec_secs() + other.spec_secs()),
    {
        Duration { secs: self.secs.saturating_add(other.secs) }
    }
}

/// `n` capped at the largest second count a `Duration` holds.
pub open spec fn saturate(n: nat) -> nat {
    if n <= u64::MAX { n } else { u64::MAX as nat }
}

} // verus!
