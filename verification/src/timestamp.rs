//! Hybrid timestamps: a physical clock reading in the high bits and a
//! logical counter in the low eighteen.

use vstd::prelude::*;

verus! {

/// Number of low bits that hold the logical counter.
pub const TSO_PHYSICAL_SHIFT_BITS: u64 = 18;

/// Two to the power of [`TSO_PHYSICAL_SHIFT_BITS`].
pub const TSO_LOGICAL_SPAN: u64 = 262144;

/// Largest physical part that still fits beside a logical counter.
pub const TSO_MAX_PHYSICAL: u64 = 70368744177663;

/// A timestamp of the store's oracle.
#[derive(Clone, Copy, Debug, PartialEq, Eq, Hash, Structural)]
pub struct TimeStamp(pub u64);

impl TimeStamp {
    /// The number that a timestamp with the given parts holds.
    pub open spec fn spec_compose(physical: u64, logical: u64) -> int {
        physical * TSO_LOGICAL_SPAN + logical
    }

    pub fn new(ts: u64) -> (r: TimeStamp)
        ensures
            r.0 == ts,
    {
        TimeStamp(ts)
    }

    pub fn zero() -> (r: TimeStamp)
        ensures
            r.0 == 0,
    {
        TimeStamp(0)
    }

    pub fn max() -> (r: TimeStamp)
        ensures
            r.0 == u64::MAX,
    {
        TimeStamp(u64::MAX)
    }

    pub fn into_inner(self) -> (r: u64)
        ensures
            r == self.0,
    {
        self.0
    }

    pub fn is_zero(&self) -> (r: bool)
        ensures
            r == (self.0 == 0),
    {
        self.0 == 0
    }

    pub fn is_max(&self) -> (r: bool)
        ensures
            r == (self.0 == u64::MAX),
    {
        self.0 == u64::MAX
    }

    /// Builds a timestamp from a physical reading and a logical counter.
    /// A counter beyond the eighteen bits is taken as it is: it carries
    /// over into the physical part.
    pub fn compose(physical: u64, logical: u64) -> (r: TimeStamp)
        requires
            Self::spec_compose(physical, logical) <= u64::MAX,
        ensures
            r.0 == Self::spec_compose(physical, logical),
    {
        TimeStamp(physical * TSO_LOGICAL_SPAN + logical)
    }

    /// The physical clock reading, in milliseconds.
    pub fn physical(&self) -> (r: u64)
        ensures
            r == self.0 / TSO_LOGICAL_SPAN,
    {
        self.0 / TSO_LOGICAL_SPAN
    }

    /// The logical counter.
    pub fn logical(&self) -> (r: u64)
        ensures
            r == self.0 % TSO_LOGICAL_SPAN,
    {
        self.0 % TSO_LOGICAL_SPAN
    }
}

/// A timestamp put together from parts gives the parts back.
pub proof fn lemma_compose_parts(physical: u64, logical: u64)
    requires
        physical <= TSO_MAX_PHYSICAL,
        logical < TSO_LOGICAL_SPAN,
    ensures
        TimeStamp::spec_compose(physical, logical) <= u64::MAX,
        TimeStamp::spec_compose(physical, logical) / (TSO_LOGICAL_SPAN as int) == physical,
        TimeStamp::spec_compose(physical, logical) % (TSO_LOGICAL_SPAN as int) == logical,
{
}

} // verus!
