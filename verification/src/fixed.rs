//! Signed fixed-point scalars: an `i64` carrying 16 fractional bits.
//!
//! A raw value `v` stands for the real number `v / 65536`. Addition and
//! subtraction are the plain integer operations; multiplication and division
//! rescale and round toward zero, exactly as the exec bodies compute them.

use vstd::prelude::*;

verus! {

/// The fixed-point representation of 1.0: values carry 16 fractional bits.
pub const FP_ONE: i64 = 65536;

/// Division by a positive divisor that rounds toward zero, as Rust's `/` does
/// on signed integers.
pub open spec fn tdiv(a: int, b: int) -> int {
    if a >= 0 {
        a / b
    } else {
        -((-a) / b)
    }
}

/// The fixed-point product of two raw values.
pub open spec fn fx_mul(a: int, b: int) -> int {
    tdiv(a * b, 65536)
}

/// The fixed-point quotient of two raw values (positive divisor).
pub open spec fn fx_div(a: int, b: int) -> int {
    tdiv(a * 65536, b)
}

/// `r` is the integer square root of `x`, rounded down.
pub open spec fn is_sqrt_floor(x: int, r: int) -> bool {
    r >= 0 && r * r <= x && x < (r + 1) * (r + 1)
}

/// The integer square root of a nonnegative `x`, rounded down.
pub closed spec fn sqrt_floor(x: int) -> int {
    choose|r: int| is_sqrt_floor(x, r)
}

proof fn lemma_sqrt_exists(x: int) -> (r: int)
    requires
        x >= 0,
    ensures
        is_sqrt_floor(x, r),
    decreases x,
{
    if x == 0 {
        assert(is_sqrt_floor(0, 0)) by (nonlinear_arith);
        0
    } else {
        let p = lemma_sqrt_exists(x - 1);
        if x < (p + 1) * (p + 1) {
            assert(is_sqrt_floor(x, p)) by (nonlinear_arith)
                requires
                    p >= 0,
                    p * p <= x - 1,
                    x < (p + 1) * (p + 1),
            ;
            p
        } else {
            assert(is_sqrt_floor(x, p + 1)) by (nonlinear_arith)
                requires
                    p >= 0,
                    p * p <= x - 1,
                    x - 1 < (p + 1) * (p + 1),
                    (p + 1) * (p + 1) <= x,
            ;
            p + 1
        }
    }
}

/// The square root rounded down is unique, so `sqrt_floor` picks it.
pub proof fn lemma_sqrt_floor(x: int)
    requires
        x >= 0,
    ensures
        is_sqrt_floor(x, sqrt_floor(x)),
{
    let r = lemma_sqrt_exists(x);
    assert(is_sqrt_floor(x, r));
}

/// Any witness of `is_sqrt_floor` equals `sqrt_floor`.
pub proof fn lemma_sqrt_floor_unique(x: int, r: int)
    requires
        x >= 0,
        is_sqrt_floor(x, r),
    ensures
        r == sqrt_floor(x),
{
    lemma_sqrt_floor(x);
    let s = sqrt_floor(x);
    assert(r == s) by (nonlinear_arith)
        requires
            r >= 0,
            s >= 0,
            r * r <= x,
            x < (r + 1) * (r + 1),
            s * s <= x,
            x < (s + 1) * (s + 1),
    ;
}

/// Rounding toward zero moves the scaled quotient by less than one divisor.
pub proof fn lemma_tdiv_bounds(a: int, b: int)
    requires
        b > 0,
    ensures
        a >= 0 ==> 0 <= tdiv(a, b) && b * tdiv(a, b) <= a && a < b * tdiv(a, b) + b,
        a < 0 ==> tdiv(a, b) <= 0 && a <= b * tdiv(a, b) && b * tdiv(a, b) < a + b,
{
    if a >= 0 {
        assert(0 <= a / b && b * (a / b) <= a && a < b * (a / b) + b) by (nonlinear_arith)
            requires
                a >= 0,
                b > 0,
        ;
    } else {
        let m = -a;
        let t = m / b;
        assert(0 <= t && b * t <= m && m < b * t + b) by (nonlinear_arith)
            requires
                m > 0,
                b > 0,
                t == m / b,
        ;
        assert(tdiv(a, b) == -t);
        assert(b * tdiv(a, b) == -(b * t)) by (nonlinear_arith)
            requires
                tdiv(a, b) == -t,
        ;
    }
}

/// Truncating division commutes with negation of the dividend.
pub proof fn lemma_tdiv_neg(a: int, b: int)
    requires
        b > 0,
    ensures
        tdiv(-a, b) == -tdiv(a, b),
{
    if a == 0 {
        assert(0int / b == 0) by (nonlinear_arith)
            requires
                b > 0,
        ;
    }
}

/// Multiplication by a nonnegative factor preserves order.
pub proof fn lemma_mul_mono(a: int, b: int, m: int) by (nonlinear_arith)
    requires
        a <= b,
        0 <= m,
    ensures
        a * m <= b * m,
{
}

/// Magnitude bounds on two factors bound their exact product.
pub proof fn lemma_mul_bound(a: int, b: int, bd_a: int, bd_b: int) by (nonlinear_arith)
    requires
        -bd_a <= a <= bd_a,
        -bd_b <= b <= bd_b,
        0 <= bd_a,
        0 <= bd_b,
    ensures
        -(bd_a * bd_b) <= a * b <= bd_a * bd_b,
{
}

/// A magnitude bound on inputs gives a magnitude bound on the fixed product.
pub proof fn lemma_fx_mul_bound(a: int, b: int, bd_a: int, bd_b: int)
    requires
        -bd_a <= a <= bd_a,
        -bd_b <= b <= bd_b,
        0 <= bd_a,
        0 <= bd_b,
    ensures
        -((bd_a * bd_b) / 65536) <= fx_mul(a, b) <= (bd_a * bd_b) / 65536,
{
    let p = a * b;
    assert(-(bd_a * bd_b) <= p <= bd_a * bd_b) by (nonlinear_arith)
        requires
            p == a * b,
            -bd_a <= a <= bd_a,
            -bd_b <= b <= bd_b,
            0 <= bd_a,
            0 <= bd_b,
    ;
    lemma_tdiv_bounds(p, 65536);
    lemma_tdiv_bounds(bd_a * bd_b, 65536);
    let q = tdiv(p, 65536);
    let m = (bd_a * bd_b) / 65536;
    assert(-m <= q <= m) by (nonlinear_arith)
        requires
            -(bd_a * bd_b) <= p <= bd_a * bd_b,
            p >= 0 ==> q >= 0 && 65536 * q <= p,
            p < 0 ==> q <= 0 && p <= 65536 * q,
            m >= 0,
            65536 * m <= bd_a * bd_b,
            bd_a * bd_b < 65536 * m + 65536,
    ;
}

/// A magnitude bound on the dividend and a floor on the divisor bound the
/// fixed quotient.
pub proof fn lemma_fx_div_bound(a: int, b: int, bd_a: int, b_lo: int)
    requires
        -bd_a <= a <= bd_a,
        0 <= bd_a,
        0 < b_lo <= b,
    ensures
        -((bd_a * 65536) / b_lo) <= fx_div(a, b) <= (bd_a * 65536) / b_lo,
{
    let p = a * 65536;
    let q = tdiv(p, b);
    let m = (bd_a * 65536) / b_lo;
    lemma_tdiv_bounds(p, b);
    lemma_tdiv_bounds(bd_a * 65536, b_lo);
    assert(-m <= q <= m) by (nonlinear_arith)
        requires
            p == a * 65536,
            -bd_a <= a <= bd_a,
            0 < b_lo <= b,
            p >= 0 ==> q >= 0 && b * q <= p,
            p < 0 ==> q <= 0 && p <= b * q,
            m >= 0,
            b_lo * m <= bd_a * 65536,
            bd_a * 65536 < b_lo * m + b_lo,
    ;
}

/// Scaling a value by a unit-range factor never grows it: the fixed product
/// of `x` in `[0, 1]` with a nonnegative `m` stays in `[0, m]`.
pub proof fn lemma_unit_scale_bound(x: int, m: int)
    requires
        0 <= x <= 65536,
        0 <= m,
    ensures
        0 <= fx_mul(x, m) <= m,
{
    lemma_mul_bound(x, m, 65536, m);
    lemma_tdiv_bounds(x * m, 65536);
    let q = tdiv(x * m, 65536);
    assert(x * m >= 0) by (nonlinear_arith)
        requires
            x >= 0,
            m >= 0,
    ;
    assert(65536 * q <= 65536 * m ==> q <= m);
}

/// Fixed-point multiplication; the product is computed exactly in `i128` and
/// rescaled with rounding toward zero.
pub fn fmul(a: i64, b: i64) -> (r: i64)
    requires
        i64::MIN <= fx_mul(a as int, b as int) <= i64::MAX,
    ensures
        r == fx_mul(a as int, b as int),
{
    let p: i128 = (a as i128) * (b as i128);
    proof {
        assert((a as int) * (b as int) <= i128::MAX && i128::MIN <= (a as int) * (b as int))
            by (nonlinear_arith)
            requires
                i64::MIN <= a <= i64::MAX,
                i64::MIN <= b <= i64::MAX,
        ;
    }
    (p / 65536) as i64
}

/// Fixed-point division by a positive divisor; computed exactly in `i128` and
/// rounded toward zero.
pub fn fdiv(a: i64, b: i64) -> (r: i64)
    requires
        b > 0,
        i64::MIN <= fx_div(a as int, b as int) <= i64::MAX,
    ensures
        r == fx_div(a as int, b as int),
{
    let p: i128 = (a as i128) * 65536;
    (p / (b as i128)) as i64
}

/// Integer square root of a `u128`, rounded down, by bisection.
pub fn sqrt_u128(x: u128) -> (r: u128)
    ensures
        is_sqrt_floor(x as int, r as int),
        r as int == sqrt_floor(x as int),
{
    let mut lo: u128 = 0;
    let mut hi: u128 = 0x10000000000000000u128;
    proof {
        assert(x < hi * hi) by (nonlinear_arith)
            requires
                hi == 0x10000000000000000u128,
                x <= u128::MAX,
        ;
    }
    while hi - lo > 1
        invariant
            lo < hi,
            hi <= 0x10000000000000000u128,
            lo * lo <= x,
            x < hi * hi,
        decreases hi - lo,
    {
        let mid: u128 = lo + (hi - lo) / 2;
        proof {
            assert(mid * mid <= u128::MAX) by (nonlinear_arith)
                requires
                    mid < 0x10000000000000000u128,
            ;
        }
        if mid * mid <= x {
            lo = mid;
        } else {
            hi = mid;
        }
    }
    proof {
        assert(hi == lo + 1);
        lemma_sqrt_floor_unique(x as int, lo as int);
    }
    lo
}

/// Square root of a nonnegative fixed-point value, rounded down in the last
/// fixed-point digit.
pub fn fsqrt(a: i64) -> (r: i64)
    requires
        a >= 0,
    ensures
        r as int == sqrt_floor(a * 65536),
        r >= 0,
        a <= 65536 ==> r <= 65536,
{
    let scaled: u128 = (a as u128) * 65536;
    let root: u128 = sqrt_u128(scaled);
    proof {
        assert(root * root <= scaled) by {
            lemma_sqrt_floor(scaled as int);
        }
        assert(root <= 0xffffffffffffu128) by (nonlinear_arith)
            requires
                root * root <= scaled,
                scaled <= 0xffffffffffffffff0000u128,
        ;
        if a <= 65536 {
            assert(root <= 65536) by (nonlinear_arith)
                requires
                    (root as int) * (root as int) <= (a as int) * 65536,
                    a <= 65536,
                    root >= 0,
            ;
        }
    }
    root as i64
}

} // verus!
