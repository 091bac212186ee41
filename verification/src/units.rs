//! Fixed-point channel arithmetic.
//!
//! A channel value is a whole number of *units*: millionths of a degree for
//! hue, millionths of a percent for saturation and lightness. Everything the
//! crate computes on channels is exact integer arithmetic on units, rounded to
//! the nearest unit where a quotient is taken.

use vstd::prelude::*;

verus! {

/// Units in one degree of hue, and in one percent of saturation or lightness.
pub const UNITS: i64 = 1_000_000;

/// Units in a full turn of the hue circle (360 degrees).
pub const FULL_TURN: i64 = 360_000_000;

/// Units in the full range of saturation or lightness (100 percent).
pub const FULL_SCALE: i64 = 100_000_000;

/// The value `x` confined to what a stored channel can hold.
pub open spec fn saturate(x: int) -> int {
    if x < i64::MIN {
        i64::MIN as int
    } else if x > i64::MAX {
        i64::MAX as int
    } else {
        x
    }
}

/// The hue `x` brought into `[0, FULL_TURN)` by whole turns.
pub open spec fn wrap_hue(x: int) -> int {
    x % (FULL_TURN as int)
}

/// The percentage `x` confined to `[0, FULL_SCALE]`.
pub open spec fn clamp_percent(x: int) -> int {
    if x < 0 {
        0
    } else if x > FULL_SCALE {
        FULL_SCALE as int
    } else {
        x
    }
}

/// The integer nearest to `n / d` for `d > 0`; a tie goes away from zero.
pub open spec fn round_div(n: int, d: int) -> int {
    if n >= 0 {
        (2 * n + d) / (2 * d)
    } else {
        -((2 * (-n) + d) / (2 * d))
    }
}

/// Rounding an exact multiple of the divisor gives the exact quotient.
pub proof fn lemma_round_div_exact(k: int, d: int)
    requires
        d > 0,
    ensures
        round_div(k * d, d) == k,
{
    let m = if k >= 0 { k } else { -k };
    assert((2 * (m * d) + d) / (2 * d) == m) by (nonlinear_arith)
        requires
            d > 0,
            m >= 0,
    {
        assert(2 * (m * d) + d == m * (2 * d) + d);
        assert(0 <= d < 2 * d);
        assert((m * (2 * d) + d) / (2 * d) == m);
    }
    if k >= 0 {
        assert(k * d >= 0) by (nonlinear_arith)
            requires
                k >= 0,
                d > 0,
        ;
    } else {
        assert(k * d < 0 && -(k * d) == m * d) by (nonlinear_arith)
            requires
                k < 0,
                d > 0,
                m == -k,
        ;
    }
}

/// A rounded quotient is no further from zero than its numerator, and has its sign.
pub proof fn lemma_round_div_bounds(n: int, d: int)
    requires
        d > 0,
    ensures
        n >= 0 ==> 0 <= round_div(n, d) <= n,
        n <= 0 ==> n <= round_div(n, d) <= 0,
{
    let m = if n >= 0 { n } else { -n };
    assert(0 <= (2 * m + d) / (2 * d) <= m) by (nonlinear_arith)
        requires
            d > 0,
            m >= 0,
    {
        if m == 0 {
            assert((2 * m + d) / (2 * d) == 0);
        } else {
            assert(2 * m + d < (m + 1) * (2 * d));
            assert((2 * m + d) / (2 * d) < m + 1);
        }
    }
}

/// Rounding is monotone in the numerator.
pub proof fn lemma_round_div_monotone(a: int, b: int, d: int)
    requires
        d > 0,
        a <= b,
    ensures
        round_div(a, d) <= round_div(b, d),
{
    lemma_round_div_bounds(a, d);
    lemma_round_div_bounds(b, d);
    if a >= 0 {
        assert((2 * a + d) / (2 * d) <= (2 * b + d) / (2 * d)) by (nonlinear_arith)
            requires
                d > 0,
                0 <= a <= b,
        ;
    } else if b < 0 {
        assert((2 * (-b) + d) / (2 * d) <= (2 * (-a) + d) / (2 * d)) by (nonlinear_arith)
            requires
                d > 0,
                a <= b < 0,
        ;
    }
}

/// `saturate`, computed.
pub(crate) fn saturate_to_i64(x: i128) -> (r: i64)
    ensures
        r == saturate(x as int),
{
    if x < i64::MIN as i128 {
        i64::MIN
    } else if x > i64::MAX as i128 {
        i64::MAX
    } else {
        x as i64
    }
}

/// `wrap_hue`, computed.
pub(crate) fn wrap_hue_of(x: i128) -> (r: i64)
    ensures
        r == wrap_hue(x as int),
        0 <= r < FULL_TURN,
{
    let turn: i128 = FULL_TURN as i128;
    let rem: i128 = x % turn;
    if rem < 0 {
        (rem + turn) as i64
    } else {
        rem as i64
    }
}

/// `clamp_percent`, computed.
pub(crate) fn clamp_percent_of(x: i128) -> (r: i64)
    ensures
        r == clamp_percent(x as int),
        0 <= r <= FULL_SCALE,
{
    if x < 0 {
        0
    } else if x > FULL_SCALE as i128 {
        FULL_SCALE
    } else {
        x as i64
    }
}

/// `round_div(delta * steps, div)`, computed without overflow for a movement
/// `delta` that is the difference of two stored values and `steps <= div`.
pub(crate) fn scaled_part(delta: i128, steps: usize, div: usize) -> (r: i128)
    requires
        div > 0,
        steps <= div,
        -0x1_0000_0000_0000_0000 < delta < 0x1_0000_0000_0000_0000,
    ensures
        r == round_div(delta * steps, div as int),
        delta >= 0 ==> 0 <= r <= delta,
        delta <= 0 ==> delta <= r <= 0,
{
    let negative: bool = delta < 0;
    let size: u128 = if negative { (-delta) as u128 } else { delta as u128 };
    let s: u128 = steps as u128;
    let d: u128 = div as u128;
    assert(size * s <= size * d && size * d <= 0xffff_ffff_ffff_ffff * 0xffff_ffff_ffff_ffff)
        by (nonlinear_arith)
        requires
            size <= 0xffff_ffff_ffff_ffff,
            s <= d,
            d <= 0xffff_ffff_ffff_ffff,
    ;
    let product: u128 = size * s;
    let quotient: u128 = product / d;
    let rest: u128 = product % d;
    let up: u128 = if rest >= d - rest { 1 } else { 0 };
    proof {
        let n = product as int;
        let dd = d as int;
        assert(n == dd * (n / dd) + n % dd && 0 <= n % dd < dd) by (nonlinear_arith)
            requires
                dd > 0,
                n >= 0,
        ;
        assert((2 * n + dd) / (2 * dd) == n / dd + (if 2 * (n % dd) >= dd { 1int } else { 0 }))
            by (nonlinear_arith)
            requires
                dd > 0,
                n >= 0,
                n == dd * (n / dd) + n % dd,
                0 <= n % dd < dd,
        {
            let q = n / dd;
            let r = n % dd;
            if 2 * r >= dd {
                assert(2 * n + dd == (q + 1) * (2 * dd) + (2 * r - dd));
                assert(0 <= 2 * r - dd < 2 * dd);
                assert(((q + 1) * (2 * dd) + (2 * r - dd)) / (2 * dd) == q + 1);
            } else {
                assert(2 * n + dd == q * (2 * dd) + (2 * r + dd));
                assert(0 <= 2 * r + dd < 2 * dd);
                assert((q * (2 * dd) + (2 * r + dd)) / (2 * dd) == q);
            }
        }
        assert(n / dd <= size && (n / dd == size ==> n % dd == 0)) by (nonlinear_arith)
            requires
                dd > 0,
                n >= 0,
                n <= size * dd,
                n == dd * (n / dd) + n % dd,
                0 <= n % dd < dd,
        ;
        if negative {
            assert(delta * steps == -n) by (nonlinear_arith)
                requires
                    n == (-delta) * steps,
            ;
        } else {
            assert(delta * steps == n);
        }
        lemma_round_div_bounds(delta * steps, dd);
    }
    let rounded: u128 = quotient + up;
    if negative {
        -(rounded as i128)
    } else {
        rounded as i128
    }
}

} // verus!
