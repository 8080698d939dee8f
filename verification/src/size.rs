//! The sizing policy of one layout slot.

use vstd::prelude::*;

use crate::rangei::MAX_POINTS;
use crate::rangei::Rangei;

verus! {

/// Denominator of relative fractions: a fraction is given in parts of
/// `FRACTION_ONE`, so `FRACTION_ONE / 2` means half of the total length.
pub const FRACTION_ONE: i64 = 1_000_000;

/// Size hint for one table column or strip cell, in integer points.
#[derive(Clone, Copy, Debug)]
pub enum Size {
    /// Absolute size in points, with a given range of allowed sizes to resize within.
    Absolute { initial: i64, range: Rangei },
    /// Size relative to all available space, as a fraction in parts of [`FRACTION_ONE`].
    Relative { fraction: i64, range: Rangei },
    /// Multiple remainders each get the same space.
    Remainder { range: Rangei },
}

impl Size {
    /// A well-formed policy keeps its values inside the bounds the allocation
    /// arithmetic needs, and a relative fraction inside `[0, FRACTION_ONE]`.
    pub open spec fn wf(self) -> bool {
        match self {
            Size::Absolute { initial, range } => {
                &&& -MAX_POINTS <= initial <= MAX_POINTS
                &&& range.wf()
            },
            Size::Relative { fraction, range } => {
                &&& 0 <= fraction <= FRACTION_ONE
                &&& range.wf()
            },
            Size::Remainder { range } => range.wf(),
        }
    }

    /// The allowed range of this policy, whatever its variant.
    pub open spec fn spec_range(self) -> Rangei {
        match self {
            Size::Absolute { range, .. } => range,
            Size::Relative { range, .. } => range,
            Size::Remainder { range } => range,
        }
    }

    /// This policy with its range replaced by `r`; all other fields kept.
    pub open spec fn spec_set_range(self, r: Rangei) -> Size {
        match self {
            Size::Absolute { initial, .. } => Size::Absolute { initial, range: r },
            Size::Relative { fraction, .. } => Size::Relative { fraction, range: r },
            Size::Remainder { .. } => Size::Remainder { range: r },
        }
    }

    /// Exactly this big, with no room for resize.
    pub fn exact(points: i64) -> (s: Size)
        requires
            -MAX_POINTS <= points <= MAX_POINTS,
        ensures
            s == (Size::Absolute { initial: points, range: Rangei { min: points, max: points } }),
            s.wf(),
    {
        Size::Absolute { initial: points, range: Rangei::new(points, points) }
    }

    /// Initially this big, but can resize.
    pub fn initial(points: i64) -> (s: Size)
        requires
            -MAX_POINTS <= points <= MAX_POINTS,
        ensures
            s == (Size::Absolute { initial: points, range: Rangei { min: 0, max: i64::MAX } }),
            s.wf(),
    {
        Size::Absolute { initial: points, range: Rangei::new(0, i64::MAX) }
    }

    /// Size relative to all available space. The fraction must lie in
    /// `[0, FRACTION_ONE]`; a caller that cannot guarantee this statically
    /// goes through [`Size::try_relative`] instead.
    pub fn relative(fraction: i64) -> (s: Size)
        requires
            0 <= fraction <= FRACTION_ONE,
        ensures
            s == (Size::Relative { fraction, range: Rangei { min: 0, max: i64::MAX } }),
            s.wf(),
    {
        Size::Relative { fraction, range: Rangei::new(0, i64::MAX) }
    }

    /// Checked form of [`Size::relative`]: `None` exactly when the fraction
    /// lies outside `[0, FRACTION_ONE]`. An out-of-range fraction is a
    /// contract violation and is never silently clamped.
    pub fn try_relative(fraction: i64) -> (s: Option<Size>)
        ensures
            s == if 0 <= fraction <= FRACTION_ONE {
                Some(Size::Relative { fraction, range: Rangei { min: 0, max: i64::MAX } })
            } else {
                None::<Size>
            },
    {
        if 0 <= fraction && fraction <= FRACTION_ONE {
            Some(Size::relative(fraction))
        } else {
            None
        }
    }

    /// Multiple remainders each get the same space.
    pub fn remainder() -> (s: Size)
        ensures
            s == (Size::Remainder { range: Rangei { min: 0, max: i64::MAX } }),
            s.wf(),
    {
        Size::Remainder { range: Rangei::new(0, i64::MAX) }
    }

    /// Won't shrink below this size (in points).
    pub fn at_least(self, minimum: i64) -> (s: Size)
        ensures
            s == self.spec_set_range(
                Rangei { min: minimum, max: self.spec_range().max },
            ),
    {
        self.with_range(Rangei::new(minimum, self.range().max))
    }

    /// Won't grow above this size (in points).
    pub fn at_most(self, maximum: i64) -> (s: Size)
        ensures
            s == self.spec_set_range(
                Rangei { min: self.spec_range().min, max: maximum },
            ),
    {
        self.with_range(Rangei::new(self.range().min, maximum))
    }

    /// This policy with its range replaced by `range`.
    pub fn with_range(self, range: Rangei) -> (s: Size)
        ensures
            s == self.spec_set_range(range),
    {
        match self {
            Size::Absolute { initial, .. } => Size::Absolute { initial, range },
            Size::Relative { fraction, .. } => Size::Relative { fraction, range },
            Size::Remainder { .. } => Size::Remainder { range },
        }
    }

    /// Allowed range of movement (in points), if in a resizable table.
    pub fn range(self) -> (r: Rangei)
        ensures
            r == self.spec_range(),
    {
        match self {
            Size::Absolute { range, .. } => range,
            Size::Relative { range, .. } => range,
            Size::Remainder { range } => range,
        }
    }

    /// Mutable access to the range, whatever the variant.
    pub fn range_mut(&mut self) -> (r: &mut Rangei)
        ensures
            *r == old(self).spec_range(),
            *final(self) == old(self).spec_set_range(*final(r)),
    {
        match self {
            Size::Absolute { range, .. } => range,
            Size::Relative { range, .. } => range,
            Size::Remainder { range } => range,
        }
    }

    pub fn is_absolute(&self) -> (b: bool)
        ensures
            b == (self is Absolute),
    {
        matches!(self, Size::Absolute { .. })
    }

    pub fn is_relative(&self) -> (b: bool)
        ensures
            b == (self is Relative),
    {
        matches!(self, Size::Relative { .. })
    }

    pub fn is_remainder(&self) -> (b: bool)
        ensures
            b == (self is Remainder),
    {
        matches!(self, Size::Remainder { .. })
    }
}

} // verus!
