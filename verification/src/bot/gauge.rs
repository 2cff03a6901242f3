//! Thousandths as a gauge shows them.
//!
//! A gauge is a binary floating-point number of double precision: the number
//! of thousandths becomes one, is divided by a thousand, and the quotient is
//! shown by the shortest decimal that stands for it. Here this is worked out
//! over integers. Up to some quadrillions the decimal is that of the
//! thousandths themselves.
use vstd::prelude::*;

verus! {

/// Below so many thousandths two of them never become the same number.
pub const TOLD_APART: u64 = 8_796_093_022_208_000;

/// A double has 53 significant bits: this many values lie between a power of
/// two and nothing.
pub const SIGNIFICANT: u64 = 9_007_199_254_740_992;

/// The integer nearest to a fraction, and of two the even one.
pub open spec fn nearest(num: nat, den: nat) -> nat {
    let below = num / den;
    let rest = num % den;
    if 2 * rest > den || (2 * rest == den && below % 2 == 1) {
        below + 1
    } else {
        below
    }
}

/// By how much a number reaches beyond another.
pub open spec fn excess(num: nat, reach: nat) -> nat {
    if num < reach {
        0
    } else {
        (num + 1 - reach) as nat
    }
}

/// How far apart doubles lie at a number: `step` where it lies below `reach`,
/// and twice as far with every doubling of that.
pub open spec fn spacing(num: nat, reach: nat, step: nat) -> nat
    decreases excess(num, reach),
{
    if reach == 0 || num < reach {
        step
    } else {
        spacing(num, 2 * reach, 2 * step)
    }
}

/// How far apart doubles lie at a fraction, where they lie no closer than whole numbers.
pub open spec fn spacing_at(num: nat, den: nat) -> nat {
    spacing(num, den * SIGNIFICANT as nat, 1)
}

/// The double nearest to a fraction, where doubles lie no closer than whole numbers.
pub open spec fn double(num: nat, den: nat) -> nat {
    spacing_at(num, den) * nearest(num, den * spacing_at(num, den))
}

/// The decimal with so many parts to a unit nearest to a number of
/// five-hundred-and-twelfths; of two the greater.
pub open spec fn decimal_near(x: nat, parts: nat) -> nat {
    (2 * x * parts + 512) / 1024
}

/// The decimal lies nearer to `x` than to any other double: a double reads as
/// itself from half way to its neighbours, and from exactly half way where it
/// is even.
pub open spec fn stands_for(x: nat, step: nat, parts: nat) -> bool {
    let d = 512 * decimal_near(x, parts) - x * parts;
    let off = if d < 0 {
        -d
    } else {
        d
    };
    2 * off < step * parts || (2 * off == step * parts && (x / step) % 2 == 0)
}

/// The thousandths that are shown for `n` thousandths.
pub open spec fn shown(n: nat) -> nat {
    if n < TOLD_APART {
        n
    } else {
        let y = double(n, 1);
        let x = double(64 * y, 125);
        let step = spacing_at(64 * y, 125);
        if stands_for(x, step, 1) {
            1000 * decimal_near(x, 1)
        } else if stands_for(x, step, 10) {
            100 * decimal_near(x, 10)
        } else if stands_for(x, step, 100) {
            10 * decimal_near(x, 100)
        } else {
            decimal_near(x, 1000)
        }
    }
}

/// Finds the integer nearest to a fraction.
fn nearest_to(num: u128, den: u128) -> (r: u128)
    requires
        0 < den < 0x1_0000_0000_0000_0000_0000_0000,
        num < 0x1_0000_0000_0000_0000_0000_0000,
    ensures
        r == nearest(num as nat, den as nat),
        r <= num / den + 1,
{
    let below: u128 = num / den;
    let rest: u128 = num % den;
    if 2 * rest > den || (2 * rest == den && below % 2 == 1) {
        proof {
            assert(below <= num) by (nonlinear_arith)
                requires
                    below == num / den,
                    den > 0,
            ;
        }
        below + 1
    } else {
        below
    }
}

/// Finds how far apart doubles lie at a fraction.
fn find_spacing(num: u128, den: u128) -> (r: u128)
    requires
        1 <= den <= 125,
        num <= 0x40_0000_0000_0000_0000,
    ensures
        r == spacing_at(num as nat, den as nat),
        1 <= r <= 0x100_0000_0000_0000_0000,
{
    proof {
        assert(SIGNIFICANT <= den * SIGNIFICANT <= 125 * SIGNIFICANT) by (nonlinear_arith)
            requires
                1 <= den <= 125,
        ;
    }
    let mut reach: u128 = den * SIGNIFICANT as u128;
    let mut step: u128 = 1;
    while num >= reach
        invariant
            num <= 0x40_0000_0000_0000_0000,
            1 <= step <= reach <= 0x80_0000_0000_0000_0000,
            spacing_at(num as nat, den as nat) == spacing(num as nat, reach as nat, step as nat),
        decreases excess(num as nat, reach as nat),
    {
        reach = 2 * reach;
        step = 2 * step;
    }
    step
}

/// Finds the double nearest to a fraction, and how far apart doubles lie there.
fn find_double(num: u128, den: u128) -> (r: (u128, u128))
    requires
        1 <= den <= 125,
        num <= 0x40_0000_0000_0000_0000,
    ensures
        r.0 == double(num as nat, den as nat),
        r.0 <= 0x200_0000_0000_0000_0000,
        r.1 == spacing_at(num as nat, den as nat),
        1 <= r.1 <= 0x100_0000_0000_0000_0000,
{
    let step: u128 = find_spacing(num, den);
    proof {
        assert(1 <= den * step <= 125 * step) by (nonlinear_arith)
            requires
                1 <= den <= 125,
                1 <= step,
        ;
    }
    let unit: u128 = den * step;
    let n: u128 = nearest_to(num, unit);
    proof {
        assert(step * n <= num + step) by (nonlinear_arith)
            requires
                n <= num / unit + 1,
                unit == den * step,
                den >= 1,
                step >= 1,
        ;
    }
    (step * n, step)
}

/// Finds the decimal nearest to a number of five-hundred-and-twelfths.
fn find_decimal(x: u128, parts: u128) -> (r: u128)
    requires
        x <= 0x200_0000_0000_0000_0000,
        1 <= parts <= 1000,
    ensures
        r == decimal_near(x as nat, parts as nat),
        512 * r <= x * parts + 256,
        x * parts < 512 * r + 512,
        x * parts <= 0x20_0000_0000_0000_0000_0000,
{
    proof {
        assert(x * parts <= 0x20_0000_0000_0000_0000_0000) by (nonlinear_arith)
            requires
                x <= 0x200_0000_0000_0000_0000,
                parts <= 1000,
        ;
        assert(2 * x * parts == 2 * (x * parts)) by (nonlinear_arith);
    }
    let twice: u128 = 2 * (x * parts);
    (twice + 512) / 1024
}

/// Whether the decimal nearest to a double stands for it.
fn is_shown_by(x: u128, step: u128, parts: u128) -> (r: bool)
    requires
        x <= 0x200_0000_0000_0000_0000,
        1 <= step <= 0x100_0000_0000_0000_0000,
        1 <= parts <= 1000,
    ensures
        r == stands_for(x as nat, step as nat, parts as nat),
{
    let near: u128 = find_decimal(x, parts);
    proof {
        assert(step * parts <= 0x20_0000_0000_0000_0000_0000) by (nonlinear_arith)
            requires
                step <= 0x100_0000_0000_0000_0000,
                parts <= 1000,
        ;
    }
    let exact: u128 = x * parts;
    let scaled: u128 = 512 * near;
    let off: u128 = if scaled < exact {
        exact - scaled
    } else {
        scaled - exact
    };
    2 * off < step * parts || (2 * off == step * parts && (x / step) % 2 == 0)
}

/// Finds the thousandths that are shown for `n` thousandths.
pub fn shown_thousandths(n: u64) -> (r: u128)
    ensures
        r == shown(n as nat),
        r <= 0x20_0000_0000_0000_0000_0000,
{
    if n < TOLD_APART {
        return n as u128;
    }
    let (y, _): (u128, u128) = find_double(n as u128, 1);
    proof {
        lemma_whole_doubles(n as nat);
    }
    let (x, step): (u128, u128) = find_double(64 * y, 125);
    if is_shown_by(x, step, 1) {
        1000 * find_decimal(x, 1)
    } else if is_shown_by(x, step, 10) {
        100 * find_decimal(x, 10)
    } else if is_shown_by(x, step, 100) {
        10 * find_decimal(x, 100)
    } else {
        find_decimal(x, 1000)
    }
}

/// The double of a number that fits is at most twice as large.
proof fn lemma_whole_doubles(n: nat)
    requires
        n <= u64::MAX,
    ensures
        double(n, 1) <= 0x1_0000_0000_0000_0000,
{
    let p = 9_007_199_254_740_992nat;
    reveal_with_fuel(spacing, 13);
    assert(spacing_at(n, 1) == spacing(n, p, 1));
    let step = spacing_at(n, 1);
    assert(step == 1 || step == 2 || step == 4 || step == 8 || step == 16 || step == 32 || step
        == 64 || step == 128 || step == 256 || step == 512 || step == 1024 || step == 2048);
    assert(n < p * step && step * p <= 0x1_0000_0000_0000_0000);
    assert(1 * step == step);
    assert(nearest(n, step) <= p);
    assert(step * nearest(n, step) <= step * p) by (nonlinear_arith)
        requires
            nearest(n, step) <= p,
    ;
}

/// Up to some quadrillions of thousandths, what is shown are the thousandths themselves.
pub proof fn law_common_values_are_exact(n: nat)
    requires
        n < TOLD_APART,
    ensures
        shown(n) == n,
{
}

/// The integer nearest to a fraction is no further from it than a half, and
/// of two that are as near it is the even one.
pub proof fn law_nearest_is_within_a_half(num: nat, den: nat)
    requires
        den > 0,
    ensures
        2 * (den * nearest(num, den)) <= 2 * num + den,
        2 * num <= 2 * (den * nearest(num, den)) + den,
        2 * (den * nearest(num, den)) == 2 * num + den || 2 * num == 2 * (den * nearest(num, den))
            + den ==> nearest(num, den) % 2 == 0,
{
    let below = num / den;
    let rest = num % den;
    assert(num == den * below + rest && rest < den) by (nonlinear_arith)
        requires
            below == num / den,
            rest == num % den,
            den > 0,
    ;
    assert(den * (below + 1) == den * below + den) by (nonlinear_arith);
}

/// Doubles at a number lie as far apart as 53 significant bits leave them: a
/// number has no more steps below it than that, and half as many at least
/// where the steps are not the smallest.
pub proof fn law_spacing_leaves_the_significant_bits(num: nat, reach: nat, step: nat)
    requires
        reach > 0,
        step > 0,
    ensures
        spacing(num, reach, step) >= step,
        num * step < reach * spacing(num, reach, step),
        spacing(num, reach, step) == step || reach * spacing(num, reach, step) <= 2 * (num * step),
    decreases excess(num, reach),
{
    if num < reach {
        assert(num * step < reach * step) by (nonlinear_arith)
            requires
                num < reach,
                step > 0,
        ;
    } else {
        law_spacing_leaves_the_significant_bits(num, 2 * reach, 2 * step);
        let s = spacing(num, reach, step);
        assert(s == spacing(num, 2 * reach, 2 * step));
        assert(num * (2 * step) == 2 * (num * step)) by (nonlinear_arith);
        assert((2 * reach) * s == 2 * (reach * s)) by (nonlinear_arith);
        if s == 2 * step {
            assert(reach * (2 * step) <= 2 * (num * step)) by (nonlinear_arith)
                requires
                    reach <= num,
            ;
        }
    }
}

/// The double of a fraction is a multiple of the step between doubles there,
/// and no further from it than half a step.
pub proof fn law_double_is_within_half_a_step(num: nat, den: nat)
    requires
        den > 0,
    ensures
        2 * (den * double(num, den)) <= 2 * num + den * spacing_at(num, den),
        2 * num <= 2 * (den * double(num, den)) + den * spacing_at(num, den),
        num < den * SIGNIFICANT * spacing_at(num, den),
{
    let step = spacing_at(num, den);
    assert(den * SIGNIFICANT > 0) by (nonlinear_arith)
        requires
            den > 0,
    ;
    law_spacing_leaves_the_significant_bits(num, den * SIGNIFICANT as nat, 1);
    assert(den * step > 0) by (nonlinear_arith)
        requires
            den > 0,
            step > 0,
    ;
    law_nearest_is_within_a_half(num, den * step);
    let n = nearest(num, den * step);
    assert(den * (step * n) == den * step * n) by (nonlinear_arith);
}

/// The decimal of a number of five-hundred-and-twelfths is no further from
/// it than half of its last place.
pub proof fn law_decimal_is_within_half_a_place(x: nat, parts: nat)
    ensures
        512 * decimal_near(x, parts) <= x * parts + 256,
        x * parts < 512 * decimal_near(x, parts) + 256,
{
    assert(2 * x * parts == 2 * (x * parts)) by (nonlinear_arith);
}

} // verus!
