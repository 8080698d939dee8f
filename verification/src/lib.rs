//! Deterministic allocation of a one-dimensional length across an ordered
//! sequence of layout slots (table columns, strip cells).
//!
//! Each slot declares a sizing policy — an absolute length, a fraction of the
//! total, or an even share of whatever is left — together with an allowed
//! min/max range. [`sizing::Sizing::to_lengths`] partitions the available
//! length across the slots: absolute and relative slots receive their request
//! (relative ones clamped to their range), and the remaining budget is split
//! evenly among the remainder slots, after a single exclusion pass that gives
//! slots whose minimum exceeds the naive even share their minimum instead.
//!
//! Lengths are integer points; fractions are expressed in parts of
//! [`size::FRACTION_ONE`].

use vstd::prelude::*;

pub mod laws;
pub mod rangei;
pub mod size;
pub mod sizing;

verus! {

} // verus!
