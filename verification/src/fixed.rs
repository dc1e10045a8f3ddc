//! Fixed-point conventions.
//!
//! Angles are counted in thousandths of a degree and lengths in thousandths
//! of a pixel. Where a division does not come out even, the quotient is
//! rounded toward zero, so that a movement and its opposite have the same
//! size.

use vstd::prelude::*;

verus! {

/// Steps per degree and per pixel.
pub const STEPS: u64 = 1000;

/// The quotient of `a` by `b`, rounded toward zero. `b` is positive.
pub open spec fn toward_zero(a: int, b: int) -> int {
    if a >= 0 {
        a / b
    } else {
        -((-a) / b)
    }
}

/// `x` held to the range from `low` to `high`: `low` where it is below,
/// `high` where it is above.
pub open spec fn clamped(x: int, low: int, high: int) -> int {
    if x < low {
        low
    } else if x > high {
        high
    } else {
        x
    }
}

/// Rounding toward zero never grows a number and never turns its sign; the
/// quotient is zero exactly where the number is smaller than the divisor.
pub proof fn lemma_toward_zero_bounds(a: int, b: int)
    requires
        b > 0,
    ensures
        a >= 0 ==> 0 <= toward_zero(a, b) <= a,
        a <= 0 ==> a <= toward_zero(a, b) <= 0,
        toward_zero(a, b) > 0 <==> a >= b,
        toward_zero(a, b) < 0 <==> a <= -b,
        toward_zero(-a, b) == -toward_zero(a, b),
{
    let n = if a >= 0 {
        a
    } else {
        -a
    };
    vstd::arithmetic::div_mod::lemma_fundamental_div_mod(n, b);
    assert(0 <= n / b <= n && (n / b > 0 <==> n >= b)) by (nonlinear_arith)
        requires
            n == b * (n / b) + n % b,
            0 <= n % b < b,
            n >= 0,
    ;
}

/// Rounding toward zero keeps the order of the numbers it is given.
pub proof fn lemma_toward_zero_monotone(a: int, c: int, b: int)
    requires
        b > 0,
        a <= c,
    ensures
        toward_zero(a, b) <= toward_zero(c, b),
{
    lemma_toward_zero_bounds(a, b);
    lemma_toward_zero_bounds(c, b);
    if a >= 0 {
        vstd::arithmetic::div_mod::lemma_div_is_ordered(a, c, b);
    } else if c < 0 {
        vstd::arithmetic::div_mod::lemma_div_is_ordered(-c, -a, b);
    }
}

/// The quotient of `a` by `b`, rounded toward zero.
pub fn div_toward_zero(a: i128, b: u64) -> (q: i128)
    requires
        b > 0,
    ensures
        q == toward_zero(a as int, b as int),
{
    a / (b as i128)
}

/// `x` held to the range from `low` to `high`.
pub fn clamp(x: i128, low: i64, high: i64) -> (held: i64)
    ensures
        held == clamped(x as int, low as int, high as int),
{
    if x < low as i128 {
        low
    } else if x > high as i128 {
        high
    } else {
        x as i64
    }
}

} // verus!
