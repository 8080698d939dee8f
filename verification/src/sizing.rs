//! The allocator: an ordered list of sizing policies and the computation of
//! concrete slot lengths.
//!
//! The model below mirrors the computation exactly: a first pass sums the
//! demands of the absolute and relative slots, the leftover budget gives a
//! naive even share, a single exclusion pass removes every remainder slot
//! whose minimum exceeds that share (subtracting its minimum from the
//! budget), and the surviving remainder slots split what is left. Divisions
//! truncate toward zero at whole points; a leftover fraction of a point is
//! not distributed.

use vstd::arithmetic::div_mod::lemma_div_is_ordered;
use vstd::arithmetic::div_mod::lemma_div_is_ordered_by_denominator;
use vstd::arithmetic::div_mod::lemma_div_multiples_vanish;
use vstd::arithmetic::div_mod::lemma_div_pos_is_pos;
use vstd::prelude::*;

use crate::rangei::MAX_POINTS;
use crate::rangei::Rangei;
use crate::size::FRACTION_ONE;
use crate::size::Size;

verus! {

/// Division rounding toward zero (for `b > 0`), as the machine division of
/// the computation behaves on a possibly negative numerator.
pub open spec fn div_toward_zero(a: int, b: int) -> int {
    if a >= 0 {
        a / b
    } else {
        -((-a) / b)
    }
}

/// `max(0, a / b)` for `b > 0`: the even share of a budget, never negative.
pub open spec fn nonneg_div(a: int, b: int) -> int {
    if a >= 0 && b > 0 {
        a / b
    } else {
        0
    }
}

/// The share of the total length a relative slot asks for, before clamping:
/// `total * fraction / FRACTION_ONE`, truncated toward zero.
pub open spec fn frac_part(total: int, fraction: int) -> int {
    div_toward_zero(total * fraction, FRACTION_ONE as int)
}

/// What one slot contributes to the first-pass sum of satisfied demands:
/// an absolute slot its initial size, a relative slot its clamped share of
/// the total, a remainder slot nothing.
pub open spec fn fixed_part(s: Size, total: int) -> int {
    match s {
        Size::Absolute { initial, .. } => initial as int,
        Size::Relative { fraction, range } => range.spec_clamp(
            frac_part(total, fraction as int),
        ),
        Size::Remainder { .. } => 0,
    }
}

/// First-pass sum of [`fixed_part`] over the slots.
pub open spec fn sum_fixed(sizes: Seq<Size>, total: int) -> int
    decreases sizes.len(),
{
    if sizes.len() == 0 {
        0
    } else {
        sum_fixed(sizes.drop_last(), total) + fixed_part(sizes.last(), total)
    }
}

/// How many slots are remainder slots.
pub open spec fn count_remainders(sizes: Seq<Size>) -> int
    decreases sizes.len(),
{
    if sizes.len() == 0 {
        0
    } else {
        count_remainders(sizes.drop_last()) + if sizes.last() is Remainder {
            1int
        } else {
            0int
        }
    }
}

/// How many slots are relative slots.
pub open spec fn count_relatives(sizes: Seq<Size>) -> int
    decreases sizes.len(),
{
    if sizes.len() == 0 {
        0
    } else {
        count_relatives(sizes.drop_last()) + if sizes.last() is Relative {
            1int
        } else {
            0int
        }
    }
}

/// A remainder slot is excluded from the even split when the naive share
/// falls below its own minimum; it then receives its minimum instead.
pub open spec fn is_excluded(s: Size, share0: int) -> bool {
    s is Remainder && share0 < s.spec_range().min
}

/// Sum of the minimums of the excluded remainder slots.
pub open spec fn excluded_min_sum(sizes: Seq<Size>, share0: int) -> int
    decreases sizes.len(),
{
    if sizes.len() == 0 {
        0
    } else {
        excluded_min_sum(sizes.drop_last(), share0) + if is_excluded(sizes.last(), share0) {
            sizes.last().spec_range().min as int
        } else {
            0int
        }
    }
}

/// How many remainder slots are excluded from the even split.
pub open spec fn count_excluded(sizes: Seq<Size>, share0: int) -> int
    decreases sizes.len(),
{
    if sizes.len() == 0 {
        0
    } else {
        count_excluded(sizes.drop_last(), share0) + if is_excluded(sizes.last(), share0) {
            1int
        } else {
            0int
        }
    }
}

/// The budget left for the remainder slots: the total, less the satisfied
/// demands and the spacing between adjacent slots.
pub open spec fn base_budget(sizes: Seq<Size>, total: int, spacing: int) -> int {
    total - (sum_fixed(sizes, total) + spacing * (sizes.len() - 1))
}

/// The even share each surviving remainder slot receives from a given
/// budget: the naive share decides which slots are excluded, their minimums
/// leave the budget, and the rest is split among the survivors.
pub open spec fn share_from_budget(sizes: Seq<Size>, budget: int) -> int {
    let nr = count_remainders(sizes);
    if nr == 0 {
        0
    } else {
        let share0 = nonneg_div(budget, nr);
        let ni = nr - count_excluded(sizes, share0);
        if ni > 0 {
            nonneg_div(budget - excluded_min_sum(sizes, share0), ni)
        } else {
            0
        }
    }
}

/// The even share of the remainder slots for a total length and spacing.
pub open spec fn remainder_share(sizes: Seq<Size>, total: int, spacing: int) -> int {
    share_from_budget(sizes, base_budget(sizes, total, spacing))
}

/// The length one slot receives: an absolute slot its initial size, a
/// relative slot its clamped share of the total, a remainder slot the even
/// share clamped to its own range (so an excluded slot is clamped up to its
/// minimum).
pub open spec fn slot_length(s: Size, total: int, share: int) -> int {
    match s {
        Size::Remainder { range } => range.spec_clamp(share),
        _ => fixed_part(s, total),
    }
}

/// The lengths of all slots, in slot order.
pub open spec fn lengths(sizes: Seq<Size>, total: int, spacing: int) -> Seq<int> {
    Seq::new(sizes.len(), |i: int| slot_length(sizes[i], total, remainder_share(sizes, total, spacing)))
}

/// A quotient of a nonnegative value by a positive one is at most the value.
proof fn lemma_div_le_self(a: int, b: int)
    requires
        0 <= a,
        1 <= b,
    ensures
        0 <= a / b <= a,
{
    lemma_div_pos_is_pos(a, b);
    lemma_div_is_ordered_by_denominator(a, 1, b);
    assert(a / 1 == a) by {
        lemma_div_multiples_vanish(a, 1);
    }
}

/// The relative share of a bounded total is itself bounded.
proof fn lemma_frac_part_bounded(total: int, fraction: int)
    requires
        -MAX_POINTS <= total <= MAX_POINTS,
        0 <= fraction <= FRACTION_ONE,
    ensures
        -MAX_POINTS <= frac_part(total, fraction) <= MAX_POINTS,
{
    let one = FRACTION_ONE as int;
    let cap = MAX_POINTS as int;
    let p = total * fraction;
    assert(-cap * one <= p <= cap * one) by (nonlinear_arith)
        requires
            -cap <= total <= cap,
            0 <= fraction <= one,
            p == total * fraction,
            0 < one,
            0 < cap,
    ;
    assert((one * cap) / one == cap) by {
        lemma_div_multiples_vanish(cap, one);
    }
    if p >= 0 {
        lemma_div_pos_is_pos(p, one);
        lemma_div_is_ordered(p, one * cap, one);
    } else {
        lemma_div_pos_is_pos(-p, one);
        lemma_div_is_ordered(-p, one * cap, one);
    }
}

/// What a well-formed slot demands in the first pass is bounded.
proof fn lemma_fixed_part_bounded(s: Size, total: int)
    requires
        s.wf(),
        -MAX_POINTS <= total <= MAX_POINTS,
    ensures
        -MAX_POINTS <= fixed_part(s, total) <= MAX_POINTS,
{
    match s {
        Size::Relative { fraction, range } => {
            lemma_frac_part_bounded(total, fraction as int);
        },
        _ => {},
    }
}

/// Extending a prefix of the slots by one extends each of the fold
/// quantities by that slot's contribution.
proof fn lemma_fold_step(s: Seq<Size>, i: int, total: int, share0: int)
    requires
        0 <= i < s.len(),
    ensures
        sum_fixed(s.take(i + 1), total) == sum_fixed(s.take(i), total) + fixed_part(s[i], total),
        count_remainders(s.take(i + 1)) == count_remainders(s.take(i)) + if s[i] is Remainder {
            1int
        } else {
            0int
        },
        excluded_min_sum(s.take(i + 1), share0) == excluded_min_sum(s.take(i), share0)
            + if is_excluded(s[i], share0) {
            s[i].spec_range().min as int
        } else {
            0int
        },
        count_excluded(s.take(i + 1), share0) == count_excluded(s.take(i), share0) + if is_excluded(
            s[i],
            share0,
        ) {
            1int
        } else {
            0int
        },
{
    assert(s.take(i + 1).drop_last() =~= s.take(i));
    assert(s.take(i + 1).last() == s[i]);
}

/// No more remainder slots are excluded than exist, and no more exist than
/// there are slots.
pub(crate) proof fn lemma_counts(s: Seq<Size>, share0: int)
    ensures
        0 <= count_excluded(s, share0) <= count_remainders(s) <= s.len(),
    decreases s.len(),
{
    if s.len() > 0 {
        lemma_counts(s.drop_last(), share0);
    }
}

/// Holds an ordered list of [`Size`] policies and computes concrete lengths.
#[derive(Clone)]
pub struct Sizing {
    pub(crate) sizes: Vec<Size>,
}

impl View for Sizing {
    type V = Seq<Size>;

    closed spec fn view(&self) -> Seq<Size> {
        self.sizes@
    }
}

impl Default for Sizing {
    fn default() -> (s: Sizing)
        ensures
            s@ == Seq::<Size>::empty(),
    {
        Sizing { sizes: Vec::new() }
    }
}

impl From<Vec<Size>> for Sizing {
    fn from(sizes: Vec<Size>) -> (s: Sizing)
        ensures
            s@ == sizes@,
    {
        Sizing { sizes }
    }
}

impl vstd::std_specs::convert::FromSpecImpl<Vec<Size>> for Sizing {
    closed spec fn obeys_from_spec() -> bool {
        true
    }

    closed spec fn from_spec(sizes: Vec<Size>) -> Sizing {
        Sizing { sizes }
    }
}

impl Sizing {
    /// Every policy in the list keeps its values inside the bounds the
    /// allocation arithmetic needs.
    pub open spec fn wf(self) -> bool {
        forall|i: int| 0 <= i < self@.len() ==> self@[i].wf()
    }

    /// Appends one policy at the end of the list.
    pub fn add(&mut self, size: Size)
        ensures
            final(self)@ == old(self)@.push(size),
    {
        self.sizes.push(size);
    }

    /// Computes the length of every slot, in slot order, for a total
    /// available length (spacing included) and a fixed gap between adjacent
    /// slots. The result is exactly the model [`lengths`]: absolute and
    /// relative slots receive their (clamped) demand whatever the budget,
    /// and the remainder slots split the leftover evenly after one exclusion
    /// pass.
    ///
    /// A relative fraction outside `[0, FRACTION_ONE]` is a contract
    /// violation: it is excluded by the precondition (through [`Sizing::wf`])
    /// and can never be clamped silently; a caller that cannot rule it out
    /// statically builds its policies through [`Size::try_relative`].
    /// Degenerate numeric inputs — a zero or negative total, spacing beyond
    /// the total, an overdrawn budget — are tolerated and degrade to
    /// clamped, possibly zero, lengths.
    pub fn to_lengths(&self, length: i64, spacing: i64) -> (r: Vec<i64>)
        requires
            self.wf(),
            -MAX_POINTS <= length <= MAX_POINTS,
            -MAX_POINTS <= spacing <= MAX_POINTS,
        ensures
            r@.len() == self@.len(),
            forall|i: int|
                0 <= i < self@.len() ==> r@[i] as int == lengths(
                    self@,
                    length as int,
                    spacing as int,
                )[i],
    {
        let n: usize = self.sizes.len();
        let mut result: Vec<i64> = Vec::new();
        if n == 0 {
            return result;
        }
        let ghost s: Seq<Size> = self@;
        let ghost t: int = length as int;
        let ghost sp: int = spacing as int;
        let cap: i128 = MAX_POINTS as i128;

        let mut sum: i128 = 0;
        let mut num_rem: usize = 0;
        let mut i: usize = 0;
        while i < n
            invariant
                s == self@,
                n == s.len(),
                self.wf(),
                t == length as int,
                -MAX_POINTS <= length <= MAX_POINTS,
                cap == MAX_POINTS as int,
                i <= n,
                sum as int == sum_fixed(s.take(i as int), t),
                num_rem as int == count_remainders(s.take(i as int)),
                num_rem <= i,
                -(i as int) * (MAX_POINTS as int) <= sum as int <= (i as int) * (MAX_POINTS as int),
            decreases n - i,
        {
            let sz: Size = self.sizes[i];
            proof {
                lemma_fold_step(s, i as int, t, 0);
                lemma_fixed_part_bounded(s[i as int], t);
            }
            match sz {
                Size::Absolute { initial, .. } => {
                    sum = sum + initial as i128;
                },
                Size::Relative { fraction, range } => {
                    let c: i64 = relative_len(length, fraction, range);
                    sum = sum + c as i128;
                },
                Size::Remainder { .. } => {
                    num_rem = num_rem + 1;
                },
            }
            i = i + 1;
        }
        proof {
            assert(s.take(n as int) =~= s);
        }

        let pairs: i128 = (n - 1) as i128;
        proof {
            assert(0 <= pairs as int <= 0xFFFF_FFFF_FFFF_FFFFint);
            assert(-0x1_0000_0000_0000_0000_0000_0000int <= sp * (pairs as int)
                <= 0x1_0000_0000_0000_0000_0000_0000int) by (nonlinear_arith)
                requires
                    -0x1_0000_0000int <= sp <= 0x1_0000_0000int,
                    0 <= pairs as int <= 0xFFFF_FFFF_FFFF_FFFFint,
            ;
            assert(n as int <= 0x1_0000_0000_0000_0000int);
            assert(sum as int <= (n as int) * (MAX_POINTS as int));
            assert(-(n as int) * (MAX_POINTS as int) <= sum as int);
        }
        let gap_total: i128 = (spacing as i128) * pairs;
        let budget: i128 = (length as i128) - (sum + gap_total);
        proof {
            assert(budget as int == base_budget(s, t, sp));
        }

        let share: i128 = if num_rem == 0 {
            0
        } else {
            let share0: i128 = if budget >= 0 {
                proof {
                    lemma_div_le_self(budget as int, num_rem as int);
                }
                ((budget as u128) / (num_rem as u128)) as i128
            } else {
                0
            };
            proof {
                assert(share0 as int == nonneg_div(budget as int, num_rem as int));
            }

            let mut excl_sum: i128 = 0;
            let mut excl_count: usize = 0;
            let mut j: usize = 0;
            while j < n
                invariant
                    s == self@,
                    n == s.len(),
                    self.wf(),
                    j <= n,
                    excl_sum as int == excluded_min_sum(s.take(j as int), share0 as int),
                    excl_count as int == count_excluded(s.take(j as int), share0 as int),
                    excl_count <= j,
                    -(j as int) * (MAX_POINTS as int) <= excl_sum as int <= (j as int) * (
                    MAX_POINTS as int),
                decreases n - j,
            {
                let sz: Size = self.sizes[j];
                proof {
                    lemma_fold_step(s, j as int, t, share0 as int);
                }
                match sz {
                    Size::Remainder { range } => {
                        if (share0 as i128) < range.min as i128 {
                            excl_sum = excl_sum + range.min as i128;
                            excl_count = excl_count + 1;
                        }
                    },
                    _ => {},
                }
                j = j + 1;
            }
            proof {
                assert(s.take(n as int) =~= s);
                lemma_counts(s, share0 as int);
            }

            let num_incl: usize = num_rem - excl_count;
            if num_incl > 0 {
                let b2: i128 = budget - excl_sum;
                if b2 >= 0 {
                    proof {
                        lemma_div_le_self(b2 as int, num_incl as int);
                    }
                    ((b2 as u128) / (num_incl as u128)) as i128
                } else {
                    0
                }
            } else {
                0
            }
        };
        proof {
            assert(share as int == remainder_share(s, t, sp));
        }

        let mut k: usize = 0;
        while k < n
            invariant
                s == self@,
                n == s.len(),
                self.wf(),
                t == length as int,
                sp == spacing as int,
                -MAX_POINTS <= length <= MAX_POINTS,
                k <= n,
                result@.len() == k,
                share as int == remainder_share(s, t, sp),
                forall|m: int|
                    0 <= m < k as int ==> result@[m] as int == slot_length(
                        s[m],
                        t,
                        remainder_share(s, t, sp),
                    ),
            decreases n - k,
        {
            let sz: Size = self.sizes[k];
            let v: i64 = match sz {
                Size::Absolute { initial, .. } => initial,
                Size::Relative { fraction, range } => relative_len(length, fraction, range),
                Size::Remainder { range } => clamp_wide(range, share),
            };
            result.push(v);
            k = k + 1;
        }
        result
    }
}

/// The clamped share of the total a relative slot receives.
fn relative_len(length: i64, fraction: i64, range: Rangei) -> (r: i64)
    requires
        range.wf(),
        0 <= fraction <= FRACTION_ONE,
        -MAX_POINTS <= length <= MAX_POINTS,
    ensures
        r as int == range.spec_clamp(frac_part(length as int, fraction as int)),
        -MAX_POINTS <= r <= MAX_POINTS,
{
    proof {
        assert(-(MAX_POINTS as int) * (FRACTION_ONE as int) <= (length as int) * (
        fraction as int) <= (MAX_POINTS as int) * (FRACTION_ONE as int)) by (nonlinear_arith)
            requires
                -MAX_POINTS <= length <= MAX_POINTS,
                0 <= fraction <= FRACTION_ONE,
        ;
    }
    let p: i128 = (length as i128) * (fraction as i128);
    let q: i128 = if p >= 0 {
        proof {
            lemma_div_le_self(p as int, FRACTION_ONE as int);
        }
        ((p as u128) / (FRACTION_ONE as u128)) as i128
    } else {
        proof {
            lemma_div_le_self(-(p as int), FRACTION_ONE as int);
        }
        -((((-p) as u128) / (FRACTION_ONE as u128)) as i128)
    };
    proof {
        assert(q as int == frac_part(length as int, fraction as int));
        lemma_frac_part_bounded(length as int, fraction as int);
    }
    clamp_wide(range, q)
}

/// Restricts a wide intermediate value into an `i64` range.
fn clamp_wide(range: Rangei, v: i128) -> (r: i64)
    requires
        range.min <= range.max,
    ensures
        r as int == range.spec_clamp(v as int),
{
    if v < range.min as i128 {
        range.min
    } else if v > range.max as i128 {
        range.max
    } else {
        v as i64
    }
}

} // verus!
