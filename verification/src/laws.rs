//! Laws of the allocation, stated and proved over the model in
//! [`crate::sizing`].

use vstd::arithmetic::div_mod::lemma_div_is_ordered;
use vstd::arithmetic::div_mod::lemma_div_multiples_vanish;
use vstd::arithmetic::div_mod::lemma_div_pos_is_pos;
use vstd::arithmetic::div_mod::lemma_fundamental_div_mod;
use vstd::arithmetic::div_mod::lemma_fundamental_div_mod_converse;
use vstd::arithmetic::div_mod::lemma_mod_bound;
use vstd::prelude::*;

use crate::rangei::Rangei;
use crate::rangei::lemma_clamp_monotonic;
use crate::size::FRACTION_ONE;
use crate::size::Size;
use crate::sizing::base_budget;
use crate::sizing::count_excluded;
use crate::sizing::count_relatives;
use crate::sizing::count_remainders;
use crate::sizing::div_toward_zero;
use crate::sizing::excluded_min_sum;
use crate::sizing::fixed_part;
use crate::sizing::frac_part;
use crate::sizing::is_excluded;
use crate::sizing::lemma_counts;
use crate::sizing::lengths;
use crate::sizing::nonneg_div;
use crate::sizing::share_from_budget;
use crate::sizing::sum_fixed;

verus! {

/// Zero slots are allocated zero lengths, whatever the total length and the
/// spacing.
pub proof fn lemma_empty_lengths(total: int, spacing: int)
    ensures
        lengths(Seq::<Size>::empty(), total, spacing) =~= Seq::<int>::empty(),
{
}

/// A list of absolute policies is allocated its initial sizes exactly,
/// whatever the total length and the spacing: absolute slots ignore both.
pub proof fn lemma_exact_sizes_invariant(
    sizes: Seq<Size>,
    total1: int,
    spacing1: int,
    total2: int,
    spacing2: int,
)
    requires
        forall|i: int| 0 <= i < sizes.len() ==> sizes[i] is Absolute,
    ensures
        forall|i: int|
            0 <= i < sizes.len() ==> lengths(sizes, total1, spacing1)[i] == sizes[i]->initial,
        lengths(sizes, total1, spacing1) =~= lengths(sizes, total2, spacing2),
{
}

/// The first-pass sum does not depend on the total length when no slot is
/// relative.
pub proof fn lemma_sum_fixed_no_relative(s: Seq<Size>, total1: int, total2: int)
    requires
        forall|i: int| 0 <= i < s.len() ==> !(s[i] is Relative),
    ensures
        sum_fixed(s, total1) == sum_fixed(s, total2),
    decreases s.len(),
{
    if s.len() > 0 {
        assert(forall|i: int|
            0 <= i < s.drop_last().len() ==> !(#[trigger] s.drop_last()[i] is Relative));
        lemma_sum_fixed_no_relative(s.drop_last(), total1, total2);
    }
}

/// The nonnegative quotient is never negative.
proof fn lemma_nonneg_div_nonneg(a: int, b: int)
    ensures
        nonneg_div(a, b) >= 0,
{
    if a >= 0 && b > 0 {
        lemma_div_pos_is_pos(a, b);
    }
}

/// The nonnegative quotient is monotonic in the numerator.
proof fn lemma_nonneg_div_monotonic(a1: int, a2: int, b: int)
    requires
        a1 <= a2,
    ensures
        nonneg_div(a1, b) <= nonneg_div(a2, b),
{
    lemma_nonneg_div_nonneg(a2, b);
    if b > 0 && a1 >= 0 {
        lemma_div_is_ordered(a1, a2, b);
    }
}

/// Every excluded slot's minimum strictly exceeds the naive share, so the
/// excluded minimums sum to at least one more than the share per slot.
proof fn lemma_excluded_min_sum_lower(s: Seq<Size>, a: int)
    ensures
        excluded_min_sum(s, a) >= count_excluded(s, a) * (a + 1),
    decreases s.len(),
{
    if s.len() == 0 {
    } else {
        let p = s.drop_last();
        let x = s.last();
        lemma_excluded_min_sum_lower(p, a);
        let c = count_excluded(p, a);
        if is_excluded(x, a) {
            assert(x.spec_range().min as int >= a + 1);
            assert((c + 1) * (a + 1) == c * (a + 1) + (a + 1)) by (nonlinear_arith);
        }
    }
}

/// Raising the naive share by one releases exactly the slots whose minimum
/// equals the raised share: the excluded count cannot grow, and the sum of
/// excluded minimums drops by the raised share once per released slot.
proof fn lemma_excluded_shift(s: Seq<Size>, a: int)
    ensures
        count_excluded(s, a + 1) <= count_excluded(s, a),
        excluded_min_sum(s, a) - excluded_min_sum(s, a + 1) == (count_excluded(s, a)
            - count_excluded(s, a + 1)) * (a + 1),
    decreases s.len(),
{
    if s.len() == 0 {
        assert(0int * (a + 1) == 0) by (nonlinear_arith);
    } else {
        let p = s.drop_last();
        let x = s.last();
        lemma_excluded_shift(p, a);
        let ca = count_excluded(p, a);
        let cb = count_excluded(p, a + 1);
        if is_excluded(x, a + 1) {
            assert(is_excluded(x, a));
        } else if is_excluded(x, a) {
            assert(x.spec_range().min as int == a + 1);
            assert((ca + 1 - cb) * (a + 1) == (ca - cb) * (a + 1) + (a + 1)) by (nonlinear_arith);
        }
    }
}

/// One budget step never lowers the even share of the remainder slots.
proof fn lemma_share_from_budget_step(s: Seq<Size>, b: int)
    ensures
        share_from_budget(s, b) >= 0,
        share_from_budget(s, b) <= share_from_budget(s, b + 1),
{
    let nr = count_remainders(s);
    lemma_counts(s, 0);
    if nr == 0 {
        return ;
    }
    let a1 = nonneg_div(b, nr);
    let a2 = nonneg_div(b + 1, nr);
    lemma_nonneg_div_nonneg(b, nr);
    lemma_nonneg_div_monotonic(b, b + 1, nr);
    // the naive share rises by at most one
    if b >= 0 {
        lemma_fundamental_div_mod(b, nr);
        lemma_mod_bound(b, nr);
        let q = b / nr;
        let r = b % nr;
        assert(b + nr == (q + 1) * nr + r) by (nonlinear_arith)
            requires
                b == nr * q + r,
        ;
        lemma_fundamental_div_mod_converse(b + nr, nr, q + 1, r);
        lemma_div_is_ordered(b + 1, b + nr, nr);
        assert(a2 <= a1 + 1);
    } else {
        assert(a1 == 0 && a2 == 0);
    }
    let c1 = count_excluded(s, a1);
    let s1 = excluded_min_sum(s, a1);
    let ni1 = nr - c1;
    lemma_counts(s, a1);
    if ni1 > 0 {
        lemma_nonneg_div_nonneg(b - s1, ni1);
    }
    if a2 == a1 {
        // the same slots are excluded; only the numerator grows
        if ni1 > 0 {
            lemma_nonneg_div_monotonic(b - s1, b + 1 - s1, ni1);
        }
    } else {
        assert(a2 == a1 + 1 && b >= 0 && a1 >= 0);
        let c2 = count_excluded(s, a2);
        let s2 = excluded_min_sum(s, a2);
        let ni2 = nr - c2;
        lemma_excluded_shift(s, a1);
        lemma_counts(s, a2);
        let d = c1 - c2;
        assert(d >= 0);
        assert(s1 - s2 == d * (a1 + 1));
        if ni2 > 0 {
            lemma_nonneg_div_nonneg(b + 1 - s2, ni2);
        }
        if ni1 > 0 && b - s1 >= 0 {
            let x = b - s1;
            // the budget is short of giving every remainder slot the raised share
            lemma_excluded_min_sum_lower(s, a1);
            assert(b <= nr * (a1 + 1) - 1) by (nonlinear_arith)
                requires
                    b == nr * a1 + b % nr,
                    0 <= b % nr < nr,
            ;
            assert(x <= ni1 * (a1 + 1) - 1) by (nonlinear_arith)
                requires
                    b <= nr * (a1 + 1) - 1,
                    s1 >= c1 * (a1 + 1),
                    ni1 == nr - c1,
                    x == b - s1,
            ;
            let f = nonneg_div(x, ni1);
            lemma_div_pos_is_pos(x, ni1);
            lemma_fundamental_div_mod(x, ni1);
            lemma_mod_bound(x, ni1);
            assert(f * ni1 <= x) by (nonlinear_arith)
                requires
                    x == ni1 * f + x % ni1,
                    0 <= x % ni1,
            ;
            // the survivors' share never exceeds the naive share
            assert(ni1 * (a1 + 1) - 1 == a1 * ni1 + (ni1 - 1)) by (nonlinear_arith);
            lemma_fundamental_div_mod_converse(ni1 * (a1 + 1) - 1, ni1, a1, ni1 - 1);
            lemma_div_is_ordered(x, ni1 * (a1 + 1) - 1, ni1);
            assert(f <= a1);
            let y = b + 1 - s2;
            assert(y == x + 1 + d * (a1 + 1));
            assert(y >= x + 1) by (nonlinear_arith)
                requires
                    y == x + 1 + d * (a1 + 1),
                    d >= 0,
                    a1 >= 0,
            ;
            assert(ni2 == ni1 + d);
            assert(f * ni2 <= y - 1) by (nonlinear_arith)
                requires
                    f * ni1 <= x,
                    0 <= f <= a1,
                    d >= 0,
                    ni2 == ni1 + d,
                    y == x + 1 + d * (a1 + 1),
            ;
            lemma_div_is_ordered(f * ni2, y, ni2);
            assert(f * ni2 == ni2 * f) by (nonlinear_arith);
            lemma_div_multiples_vanish(f, ni2);
            assert(f <= y / ni2);
        }
    }
}

/// The even share of the remainder slots is monotonic in the budget.
pub proof fn lemma_share_from_budget_monotonic(s: Seq<Size>, b1: int, b2: int)
    requires
        b1 <= b2,
    ensures
        share_from_budget(s, b1) <= share_from_budget(s, b2),
    decreases b2 - b1,
{
    if b1 < b2 {
        lemma_share_from_budget_monotonic(s, b1, b2 - 1);
        lemma_share_from_budget_step(s, b2 - 1);
    }
}

/// There is no negative number of relative slots.
proof fn lemma_count_relatives_nonneg(s: Seq<Size>)
    ensures
        count_relatives(s) >= 0,
    decreases s.len(),
{
    if s.len() > 0 {
        lemma_count_relatives_nonneg(s.drop_last());
    }
}

/// A list counting no relative slots holds none.
proof fn lemma_count_relatives_zero(s: Seq<Size>)
    requires
        count_relatives(s) == 0,
    ensures
        forall|i: int| 0 <= i < s.len() ==> !(#[trigger] s[i] is Relative),
    decreases s.len(),
{
    if s.len() > 0 {
        lemma_count_relatives_nonneg(s.drop_last());
        lemma_count_relatives_zero(s.drop_last());
        assert(!(s.last() is Relative));
        assert forall|i: int| 0 <= i < s.len() implies !(#[trigger] s[i] is Relative) by {
            if i < s.len() - 1 {
                assert(s[i] == s.drop_last()[i]);
            } else {
                assert(s[i] == s.last());
            }
        }
    }
}

/// Growing a truncated-toward-zero quotient's numerator by at most the
/// divisor grows the quotient by at most one.
proof fn lemma_div_toward_zero_step(a: int, e: int, b: int)
    requires
        0 < b,
        0 <= e <= b,
    ensures
        div_toward_zero(a, b) <= div_toward_zero(a + e, b) <= div_toward_zero(a, b) + 1,
{
    if a >= 0 {
        lemma_div_is_ordered(a, a + e, b);
        lemma_div_is_ordered(a + e, a + b, b);
        lemma_fundamental_div_mod(a, b);
        lemma_mod_bound(a, b);
        assert(a + b == (a / b + 1) * b + a % b) by (nonlinear_arith)
            requires
                a == b * (a / b) + a % b,
        ;
        lemma_fundamental_div_mod_converse(a + b, b, a / b + 1, a % b);
    } else if a + e >= 0 {
        let u = -a;
        assert(0 < u <= e <= b);
        if u == b {
            lemma_div_multiples_vanish(1, b);
        } else {
            lemma_fundamental_div_mod_converse(u, b, 0, u);
        }
        lemma_fundamental_div_mod_converse(a + e, b, 0, a + e);
    } else {
        let u = -a;
        let v = -(a + e);
        lemma_div_is_ordered(v, u, b);
        lemma_div_is_ordered(u, v + b, b);
        lemma_fundamental_div_mod(v, b);
        lemma_mod_bound(v, b);
        assert(v + b == (v / b + 1) * b + v % b) by (nonlinear_arith)
            requires
                v == b * (v / b) + v % b,
        ;
        lemma_fundamental_div_mod_converse(v + b, b, v / b + 1, v % b);
    }
}

/// Clamping moves by no more than its argument moved.
proof fn lemma_clamp_lipschitz(r: Rangei, v1: int, v2: int)
    requires
        r.min <= r.max,
        v1 <= v2,
    ensures
        r.spec_clamp(v1) <= r.spec_clamp(v2) <= r.spec_clamp(v1) + (v2 - v1),
{
}

/// One more point of total length raises a slot's first-pass demand by at
/// most one point, and never lowers it.
proof fn lemma_fixed_part_step(x: Size, t: int)
    requires
        x.wf(),
    ensures
        fixed_part(x, t) <= fixed_part(x, t + 1) <= fixed_part(x, t) + 1,
{
    match x {
        Size::Relative { fraction, range } => {
            let f = fraction as int;
            let one = FRACTION_ONE as int;
            assert((t + 1) * f == t * f + f) by (nonlinear_arith);
            lemma_div_toward_zero_step(t * f, f, one);
            lemma_clamp_lipschitz(range, frac_part(t, f), frac_part(t + 1, f));
        },
        _ => {},
    }
}

/// A slot's first-pass demand is monotonic in the total length.
proof fn lemma_fixed_part_monotonic(x: Size, t1: int, t2: int)
    requires
        x.wf(),
        t1 <= t2,
    ensures
        fixed_part(x, t1) <= fixed_part(x, t2),
    decreases t2 - t1,
{
    if t1 < t2 {
        lemma_fixed_part_monotonic(x, t1, t2 - 1);
        lemma_fixed_part_step(x, t2 - 1);
    }
}

/// With at most one relative slot in the list, one more point of total
/// length raises the first-pass sum by at most one point.
proof fn lemma_sum_fixed_step(s: Seq<Size>, t: int)
    requires
        forall|i: int| 0 <= i < s.len() ==> (#[trigger] s[i]).wf(),
        count_relatives(s) <= 1,
    ensures
        sum_fixed(s, t) <= sum_fixed(s, t + 1) <= sum_fixed(s, t) + 1,
    decreases s.len(),
{
    if s.len() > 0 {
        let p = s.drop_last();
        let x = s.last();
        assert(forall|i: int| 0 <= i < p.len() ==> (#[trigger] p[i]).wf());
        lemma_count_relatives_nonneg(p);
        if x is Relative {
            lemma_count_relatives_zero(p);
            lemma_sum_fixed_no_relative(p, t, t + 1);
            lemma_fixed_part_step(x, t);
        } else {
            lemma_sum_fixed_step(p, t);
            lemma_fixed_part_step(x, t);
        }
    }
}

/// With at most one relative slot, the remainder budget is monotonic in the
/// total length.
pub proof fn lemma_budget_monotonic(sizes: Seq<Size>, spacing: int, total1: int, total2: int)
    requires
        forall|i: int| 0 <= i < sizes.len() ==> (#[trigger] sizes[i]).wf(),
        count_relatives(sizes) <= 1,
        total1 <= total2,
    ensures
        base_budget(sizes, total1, spacing) <= base_budget(sizes, total2, spacing),
    decreases total2 - total1,
{
    if total1 < total2 {
        lemma_budget_monotonic(sizes, spacing, total1, total2 - 1);
        lemma_sum_fixed_step(sizes, total2 - 1);
    }
}

/// Monotonicity: for a fixed policy list with at most one relative slot and
/// a fixed spacing, growing the total length never shrinks any slot's
/// allocated length, and leaves every absolute slot's length as it was.
/// (With two or more relative slots this can fail: their demands all grow
/// with the total and, through clamping and whole-point truncation, can
/// together eat more of the budget than the total gained.)
pub proof fn lemma_lengths_monotonic(sizes: Seq<Size>, spacing: int, total1: int, total2: int)
    requires
        forall|i: int| 0 <= i < sizes.len() ==> (#[trigger] sizes[i]).wf(),
        count_relatives(sizes) <= 1,
        total1 <= total2,
    ensures
        forall|i: int|
            0 <= i < sizes.len() ==> lengths(sizes, total1, spacing)[i] <= lengths(
                sizes,
                total2,
                spacing,
            )[i],
        forall|i: int|
            0 <= i < sizes.len() && sizes[i] is Absolute ==> lengths(sizes, total1, spacing)[i]
                == lengths(sizes, total2, spacing)[i],
{
    lemma_budget_monotonic(sizes, spacing, total1, total2);
    let b1 = base_budget(sizes, total1, spacing);
    let b2 = base_budget(sizes, total2, spacing);
    lemma_share_from_budget_monotonic(sizes, b1, b2);
    assert forall|i: int|
        0 <= i < sizes.len() implies lengths(sizes, total1, spacing)[i] <= lengths(
        sizes,
        total2,
        spacing,
    )[i] by {
        match sizes[i] {
            Size::Remainder { .. } => {
                lemma_clamp_monotonic(
                    sizes[i].spec_range(),
                    share_from_budget(sizes, b1),
                    share_from_budget(sizes, b2),
                );
            },
            _ => {
                lemma_fixed_part_monotonic(sizes[i], total1, total2);
            },
        }
    }
}

} // verus!
