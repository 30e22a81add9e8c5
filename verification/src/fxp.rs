//! Fixed-point scalar arithmetic.
//!
//! A scalar is an `i64` holding a real value multiplied by `SCALE`.
//! Products and quotients are computed in wide integers, rounded toward
//! zero, and saturated to the `i64` range, so every operation is total and
//! its result is stated exactly by the spec functions here.

use vstd::prelude::*;

verus! {

/// Number of fixed-point units per real unit.
pub const SCALE: i64 = 1000;

/// Distance threshold under which two scalars count as equal (0.01 units).
pub const VERY_SMALL: i64 = 10;

/// The integer clamped to the `i64` range.
pub open spec fn sat64(x: int) -> int {
    if x > i64::MAX as int {
        i64::MAX as int
    } else if x < i64::MIN as int {
        i64::MIN as int
    } else {
        x
    }
}

/// Division rounded toward zero (the rounding of machine division).
pub open spec fn tdiv(a: int, b: int) -> int {
    if (a < 0) != (b < 0) {
        -(vstd::math::abs(a) as int / vstd::math::abs(b) as int)
    } else {
        vstd::math::abs(a) as int / vstd::math::abs(b) as int
    }
}

/// Fixed-point product: `a * b / SCALE`, rounded toward zero, saturated.
pub open spec fn mul_fp(a: int, b: int) -> int {
    sat64(tdiv(a * b, SCALE as int))
}

/// Fixed-point quotient: `a * SCALE / b`, rounded toward zero, saturated.
/// Division by zero yields zero.
pub open spec fn div_fp(a: int, b: int) -> int {
    if b == 0 {
        0
    } else {
        sat64(tdiv(a * SCALE as int, b))
    }
}

/// Saturated sum.
pub open spec fn add_sat(a: int, b: int) -> int {
    sat64(a + b)
}

/// Saturated difference.
pub open spec fn sub_sat(a: int, b: int) -> int {
    sat64(a - b)
}

/// Floor of the square root; zero for negative arguments.
pub open spec fn sqrt_floor(x: int) -> int
    decreases x,
{
    if x < 1 {
        0
    } else {
        let r = sqrt_floor(x - 1);
        if (r + 1) * (r + 1) <= x {
            r + 1
        } else {
            r
        }
    }
}

/// `sqrt_floor(x)` is the unique `r >= 0` with `r * r <= x < (r + 1) * (r + 1)`.
pub proof fn lemma_sqrt_floor_bounds(x: int)
    requires
        x >= 0,
    ensures
        sqrt_floor(x) >= 0,
        sqrt_floor(x) * sqrt_floor(x) <= x,
        x < (sqrt_floor(x) + 1) * (sqrt_floor(x) + 1),
    decreases x,
{
    if x < 1 {
    } else {
        lemma_sqrt_floor_bounds(x - 1);
        let r = sqrt_floor(x - 1);
        if (r + 1) * (r + 1) <= x {
            assert(x < (r + 2) * (r + 2)) by (nonlinear_arith)
                requires
                    r >= 0,
                    x - 1 < (r + 1) * (r + 1);
        }
    }
}

pub proof fn lemma_sqrt_floor_unique(x: int, r: int)
    requires
        x >= 0,
        r >= 0,
        r * r <= x,
        x < (r + 1) * (r + 1),
    ensures
        r == sqrt_floor(x),
{
    lemma_sqrt_floor_bounds(x);
    let s = sqrt_floor(x);
    if r < s {
        assert((r + 1) * (r + 1) <= s * s) by (nonlinear_arith)
            requires
                0 <= r,
                r + 1 <= s;
    }
    if s < r {
        assert((s + 1) * (s + 1) <= r * r) by (nonlinear_arith)
            requires
                0 <= s,
                s + 1 <= r;
    }
}

/// Magnitude of `a` as a `u64`.
pub fn abs64(a: i64) -> (r: u64)
    ensures
        r == vstd::math::abs(a as int),
{
    if a >= 0 {
        a as u64
    } else {
        (-(a as i128)) as u64
    }
}

/// Clamps a signed magnitude into the `i64` range.
fn sat_signed(neg: bool, m: u128) -> (r: i64)
    ensures
        r as int == sat64(if neg { -(m as int) } else { m as int }),
{
    if neg {
        if m >= 9223372036854775808u128 {
            i64::MIN
        } else {
            -(m as i64)
        }
    } else {
        if m > i64::MAX as u128 {
            i64::MAX
        } else {
            m as i64
        }
    }
}

proof fn lemma_mag_mul_bound(x: int, y: int)
    requires
        0 <= x <= 0x8000000000000000,
        0 <= y <= 0x8000000000000000,
    ensures
        0 <= x * y <= 0x40000000000000000000000000000000,
{
    assert(0 <= x * y <= 0x40000000000000000000000000000000) by (nonlinear_arith)
        requires
            0 <= x <= 0x8000000000000000,
            0 <= y <= 0x8000000000000000;
}

proof fn lemma_abs_mul(a: int, b: int)
    ensures
        vstd::math::abs(a * b) == vstd::math::abs(a) * vstd::math::abs(b),
        ((a < 0) != (b < 0)) && a != 0 && b != 0 ==> a * b < 0,
        ((a < 0) == (b < 0)) ==> a * b >= 0,
{
    assert(vstd::math::abs(a * b) == vstd::math::abs(a) * vstd::math::abs(b)
        && (((a < 0) != (b < 0)) && a != 0 && b != 0 ==> a * b < 0)
        && (((a < 0) == (b < 0)) ==> a * b >= 0)) by (nonlinear_arith);
}

/// Fixed-point product.
pub fn fp_mul(a: i64, b: i64) -> (r: i64)
    ensures
        r as int == mul_fp(a as int, b as int),
{
    let neg: bool = (a < 0) != (b < 0);
    let ma: u64 = abs64(a);
    let mb: u64 = abs64(b);
    proof {
        lemma_mag_mul_bound(ma as int, mb as int);
        lemma_abs_mul(a as int, b as int);
    }
    let q: u128 = (ma as u128) * (mb as u128) / (SCALE as u128);
    sat_signed(neg, q)
}

/// Fixed-point quotient; zero when the divisor is zero.
pub fn fp_div(a: i64, b: i64) -> (r: i64)
    ensures
        r as int == div_fp(a as int, b as int),
{
    if b == 0 {
        return 0;
    }
    let neg: bool = (a < 0) != (b < 0);
    let ma: u64 = abs64(a);
    let mb: u64 = abs64(b);
    proof {
        lemma_mag_mul_bound(ma as int, SCALE as int);
        lemma_abs_mul(a as int, SCALE as int);
    }
    let q: u128 = (ma as u128) * (SCALE as u128) / (mb as u128);
    sat_signed(neg, q)
}

/// Truncating integer division of a scalar by a plain count.
pub fn div_count(a: i64, n: i64) -> (r: i64)
    requires
        n != 0,
    ensures
        r as int == sat64(tdiv(a as int, n as int)),
{
    let neg: bool = (a < 0) != (n < 0);
    let ma: u64 = abs64(a);
    let mn: u64 = abs64(n);
    let q: u128 = (ma as u128) / (mn as u128);
    sat_signed(neg, q)
}

/// Saturated sum.
pub fn fp_add(a: i64, b: i64) -> (r: i64)
    ensures
        r as int == add_sat(a as int, b as int),
{
    let s: i128 = a as i128 + b as i128;
    if s > i64::MAX as i128 {
        i64::MAX
    } else if s < i64::MIN as i128 {
        i64::MIN
    } else {
        s as i64
    }
}

/// Saturated difference.
pub fn fp_sub(a: i64, b: i64) -> (r: i64)
    ensures
        r as int == sub_sat(a as int, b as int),
{
    let s: i128 = a as i128 - b as i128;
    if s > i64::MAX as i128 {
        i64::MAX
    } else if s < i64::MIN as i128 {
        i64::MIN
    } else {
        s as i64
    }
}

/// Saturated negation.
pub fn fp_neg(a: i64) -> (r: i64)
    ensures
        r as int == sat64(-(a as int)),
{
    if a == i64::MIN {
        i64::MAX
    } else {
        -a
    }
}

/// Floor square root of a wide unsigned integer.
fn sqrt_u128(x: u128) -> (r: u128)
    ensures
        r as int == sqrt_floor(x as int),
{
    let mut lo: u128 = 0;
    let mut hi: u128 = 18446744073709551616u128;
    proof {
        assert(hi * hi > x as int) by (nonlinear_arith)
            requires
                hi == 18446744073709551616u128,
                x as int <= u128::MAX as int;
    }
    while lo + 1 < hi
        invariant
            0 <= lo < hi,
            lo * lo <= x as int,
            (x as int) < hi * hi,
            hi <= 18446744073709551616u128,
        decreases hi - lo,
    {
        let mid: u128 = lo + (hi - lo) / 2;
        proof {
            assert(mid * mid <= u128::MAX as int) by (nonlinear_arith)
                requires
                    0 <= mid < 18446744073709551616u128;
        }
        if mid * mid <= x {
            lo = mid;
        } else {
            hi = mid;
        }
    }
    proof {
        lemma_sqrt_floor_unique(x as int, lo as int);
    }
    lo
}

/// Euclidean length of the pair `(a, b)`, saturated.
pub open spec fn hypot_fp(a: int, b: int) -> int {
    sat64(sqrt_floor(a * a + b * b))
}

/// Fixed-point Euclidean length of a pair of scalars.
pub fn fp_hypot(a: i64, b: i64) -> (r: i64)
    ensures
        r as int == hypot_fp(a as int, b as int),
{
    let ma: u64 = abs64(a);
    let mb: u64 = abs64(b);
    proof {
        lemma_mag_mul_bound(ma as int, ma as int);
        lemma_mag_mul_bound(mb as int, mb as int);
    }
    let s: u128 = (ma as u128) * (ma as u128) + (mb as u128) * (mb as u128);
    proof {
        assert(vstd::math::abs(a as int) * vstd::math::abs(a as int) == (a as int) * (a as int)
            && vstd::math::abs(b as int) * vstd::math::abs(b as int) == (b as int) * (b as int)
            && (ma as int) * (ma as int) + (mb as int) * (mb as int)
                <= u128::MAX as int) by (nonlinear_arith)
            requires
                ma == vstd::math::abs(a as int),
                mb == vstd::math::abs(b as int),
                ma <= 9223372036854775808u128,
                mb <= 9223372036854775808u128;
    }
    let r: u128 = sqrt_u128(s);
    if r > i64::MAX as u128 {
        i64::MAX
    } else {
        r as i64
    }
}

/// Whether two scalars differ by less than `VERY_SMALL`.
pub open spec fn almost_eq_fp(f1: int, f2: int) -> bool {
    vstd::math::abs(f1 - f2) < VERY_SMALL as int
}

/// Whether two scalars are equal within the `VERY_SMALL` tolerance.
pub fn almost_eq(f1: i64, f2: i64) -> (r: bool)
    ensures
        r == almost_eq_fp(f1 as int, f2 as int),
{
    let d: i128 = f1 as i128 - f2 as i128;
    -(VERY_SMALL as i128) < d && d < VERY_SMALL as i128
}


/// Division toward zero by a positive divisor is monotone in the
/// dividend.
pub proof fn lemma_tdiv_mono(x: int, y: int, d: int)
    requires
        x <= y,
        d > 0,
    ensures
        tdiv(x, d) <= tdiv(y, d),
{
    if 0 <= x {
        vstd::arithmetic::div_mod::lemma_div_is_ordered(x, y, d);
    } else if y < 0 {
        vstd::arithmetic::div_mod::lemma_div_is_ordered(-y, -x, d);
    }
}

/// The clamp to the `i64` range is monotone.
pub proof fn lemma_sat64_mono(x: int, y: int)
    requires
        x <= y,
    ensures
        sat64(x) <= sat64(y),
{
}

/// The fixed-point product is monotone in its first factor: increasing
/// for a non-negative second factor, decreasing for a negative one.
pub proof fn lemma_mul_fp_mono(a1: int, a2: int, c: int)
    requires
        a1 <= a2,
    ensures
        c >= 0 ==> mul_fp(a1, c) <= mul_fp(a2, c),
        c < 0 ==> mul_fp(a2, c) <= mul_fp(a1, c),
{
    if c >= 0 {
        assert(a1 * c <= a2 * c) by (nonlinear_arith)
            requires
                a1 <= a2,
                c >= 0;
        lemma_tdiv_mono(a1 * c, a2 * c, SCALE as int);
    } else {
        assert(a2 * c <= a1 * c) by (nonlinear_arith)
            requires
                a1 <= a2,
                c < 0;
        lemma_tdiv_mono(a2 * c, a1 * c, SCALE as int);
    }
}

} // verus!
