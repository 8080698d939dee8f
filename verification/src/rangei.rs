//! Inclusive `[min, max]` bounds on a slot length, in integer points.

use vstd::prelude::*;

verus! {

/// Largest magnitude, in points, of the values the allocation arithmetic
/// works with: slot lengths, totals, spacing and range minimums must lie in
/// `[-MAX_POINTS, MAX_POINTS]` so that the intermediate sums provably fit in
/// the machine integers used by the computation.
pub const MAX_POINTS: i64 = 0x1_0000_0000;

/// An inclusive range of allowed lengths. `min <= max` is assumed, not
/// enforced on construction; computations require it through [`Rangei::wf`].
/// An effectively unbounded maximum is written `i64::MAX`.
#[derive(Clone, Copy, Debug, PartialEq, Eq, Structural)]
pub struct Rangei {
    pub min: i64,
    pub max: i64,
}

impl Rangei {
    /// A well-formed range is ordered, and its minimum is small enough for the
    /// allocation sums (the maximum only ever bounds a clamp, so it may be any
    /// value up to `i64::MAX`).
    pub open spec fn wf(self) -> bool {
        &&& self.min <= self.max
        &&& -MAX_POINTS <= self.min <= MAX_POINTS
    }

    /// The value `v` restricted into `[min, max]`.
    pub open spec fn spec_clamp(self, v: int) -> int {
        if v < self.min {
            self.min as int
        } else if v > self.max {
            self.max as int
        } else {
            v
        }
    }

    pub fn new(min: i64, max: i64) -> (r: Rangei)
        ensures
            r == (Rangei { min, max }),
    {
        Rangei { min, max }
    }

    /// Restricts `v` into `[min, max]`.
    pub fn clamp(self, v: i64) -> (r: i64)
        requires
            self.min <= self.max,
        ensures
            r as int == self.spec_clamp(v as int),
    {
        if v < self.min {
            self.min
        } else if v > self.max {
            self.max
        } else {
            v
        }
    }
}

/// Clamping is monotonic in the clamped value.
pub proof fn lemma_clamp_monotonic(r: Rangei, v1: int, v2: int)
    requires
        r.min <= r.max,
        v1 <= v2,
    ensures
        r.spec_clamp(v1) <= r.spec_clamp(v2),
{
}

} // verus!
