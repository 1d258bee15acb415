//! Fixed-point scalar arithmetic.
//!
//! Every scalar quantity in this crate (coordinates, directions, colors,
//! parametric distances) is an `i64` counting millionths: the value `1.0`
//! is stored as `SCALE`. All operations round toward zero, exactly as
//! Rust's integer division does, and every executable operation carries an
//! exact contract phrased with the spec functions below.

use vstd::prelude::*;

verus! {

/// Number of fixed-point units in one whole: a scalar `s` stands for the
/// real number `s / SCALE`.
pub const SCALE: i64 = 1_000_000;

/// Truncating (round-toward-zero) division, the semantics of Rust's `/`
/// on signed integers, expressed over Euclidean division on magnitudes.
pub open spec fn tdiv(a: int, b: int) -> int {
    if a >= 0 {
        a / b
    } else {
        -((-a) / b)
    }
}

/// Product of two fixed-point scalars.
pub open spec fn smul(a: int, b: int) -> int {
    tdiv(a * b, SCALE as int)
}

/// Quotient of two fixed-point scalars.
pub open spec fn sdiv(a: int, b: int) -> int {
    tdiv(a * (SCALE as int), b)
}

/// `r` is the integer square root of `n`.
pub open spec fn is_sqrt(n: int, r: int) -> bool {
    0 <= r && r * r <= n && n < (r + 1) * (r + 1)
}

/// The integer square root, as a value (unique by `lemma_sqrt_unique`).
pub open spec fn sqrt_i(n: int) -> int {
    choose|r: int| is_sqrt(n, r)
}

/// Square root of a fixed-point scalar: the fixed-point representation of
/// `sqrt(x / SCALE)` is the integer square root of `x * SCALE`.
pub open spec fn ssqrt(x: int) -> int {
    sqrt_i(x * (SCALE as int))
}

/// Truncating division by a positive divisor never grows the magnitude and
/// keeps the sign of the dividend.
pub proof fn lemma_tdiv_le(a: int, b: int, c: int)
    requires
        b >= 1,
        -c <= a <= c,
    ensures
        -c <= tdiv(a, b) <= c,
        a >= 0 ==> tdiv(a, b) >= 0,
        a <= 0 ==> tdiv(a, b) <= 0,
{
    if a >= 0 {
        vstd::arithmetic::div_mod::lemma_div_pos_is_pos(a, b);
        vstd::arithmetic::div_mod::lemma_div_nonincreasing(a, b);
    } else {
        vstd::arithmetic::div_mod::lemma_div_pos_is_pos(-a, b);
        vstd::arithmetic::div_mod::lemma_div_nonincreasing(-a, b);
    }
}

/// Quotient bound: if `|a| <= b * c` then `|tdiv(a, b)| <= c`.
pub proof fn lemma_tdiv_quot(a: int, b: int, c: int)
    requires
        b >= 1,
        c >= 0,
        -(b * c) <= a <= b * c,
    ensures
        -c <= tdiv(a, b) <= c,
{
    if a >= 0 {
        vstd::arithmetic::div_mod::lemma_div_pos_is_pos(a, b);
        vstd::arithmetic::div_mod::lemma_multiply_divide_le(a, b, c);
    } else {
        vstd::arithmetic::div_mod::lemma_div_pos_is_pos(-a, b);
        vstd::arithmetic::div_mod::lemma_multiply_divide_le(-a, b, c);
    }
}

/// Quotient lower bound: if `a >= b * c` then `tdiv(a, b) >= c`.
pub proof fn lemma_tdiv_lower(a: int, b: int, c: int)
    requires
        b >= 1,
        c >= 0,
        a >= b * c,
    ensures
        tdiv(a, b) >= c,
{
    assert(b * c >= 0) by (nonlinear_arith)
        requires b >= 1, c >= 0;
    vstd::arithmetic::div_mod::lemma_div_is_ordered(b * c, a, b);
    vstd::arithmetic::div_mod::lemma_div_by_multiple(c, b);
    assert(c * b == b * c) by (nonlinear_arith);
}

/// Truncating division is monotone in the dividend, for a dividend pair of
/// like magnitude ordering.
pub proof fn lemma_tdiv_mono(x: int, y: int, b: int)
    requires
        b >= 1,
        0 <= x <= y,
    ensures
        tdiv(x, b) <= tdiv(y, b),
{
    vstd::arithmetic::div_mod::lemma_div_is_ordered(x, y, b);
}

/// Truncating division is odd in its dividend.
pub proof fn lemma_tdiv_neg(a: int, b: int)
    requires
        b != 0,
    ensures
        tdiv(-a, b) == -tdiv(a, b),
{
    if a == 0 {
        vstd::arithmetic::div_mod::lemma_div_of0(b);
    }
}

/// The integer square root is unique.
pub proof fn lemma_sqrt_unique(n: int, r1: int, r2: int)
    requires
        is_sqrt(n, r1),
        is_sqrt(n, r2),
    ensures
        r1 == r2,
{
    if r1 < r2 {
        assert((r1 + 1) * (r1 + 1) <= r2 * r2) by (nonlinear_arith)
            requires 0 <= r1, 0 <= r2, r1 < r2;
    }
    if r2 < r1 {
        assert((r2 + 1) * (r2 + 1) <= r1 * r1) by (nonlinear_arith)
            requires 0 <= r1, 0 <= r2, r2 < r1;
    }
}

/// A witness pins down `sqrt_i`.
pub proof fn lemma_sqrt_is(n: int, r: int)
    requires
        is_sqrt(n, r),
    ensures
        sqrt_i(n) == r,
{
    let w = choose|q: int| is_sqrt(n, q);
    lemma_sqrt_unique(n, w, r);
}

/// Magnitude bound on a product from bounds on its factors.
pub proof fn lemma_mul_mag(a: int, b: int, c: int, d: int)
    requires
        -c <= a <= c,
        -d <= b <= d,
    ensures
        -(c * d) <= a * b <= c * d,
{
    assert(-(c * d) <= a * b <= c * d) by (nonlinear_arith)
        requires -c <= a <= c, -d <= b <= d;
}

/// Magnitude bound on a fixed-point product.
pub proof fn lemma_smul_mag(a: int, b: int, c: int, d: int)
    requires
        -c <= a <= c,
        -d <= b <= d,
    ensures
        -tdiv(c * d, SCALE as int) <= smul(a, b) <= tdiv(c * d, SCALE as int),
        -(c * d) <= smul(a, b) <= c * d,
{
    lemma_mul_mag(a, b, c, d);
    let p = a * b;
    let cd = c * d;
    if p >= 0 {
        vstd::arithmetic::div_mod::lemma_div_pos_is_pos(p, SCALE as int);
        vstd::arithmetic::div_mod::lemma_div_is_ordered(p, cd, SCALE as int);
    } else {
        vstd::arithmetic::div_mod::lemma_div_pos_is_pos(-p, SCALE as int);
        vstd::arithmetic::div_mod::lemma_div_is_ordered(-p, cd, SCALE as int);
    }
    vstd::arithmetic::div_mod::lemma_div_pos_is_pos(cd, SCALE as int);
    vstd::arithmetic::div_mod::lemma_div_nonincreasing(cd, SCALE as int);
}

/// A fixed-point square is never negative.
pub proof fn lemma_smul_self_nonneg(a: int)
    ensures
        smul(a, a) >= 0,
{
    assert(a * a >= 0) by (nonlinear_arith);
    vstd::arithmetic::div_mod::lemma_div_pos_is_pos(a * a, SCALE as int);
}

/// Fixed-point multiplication. Exact: the result is `a * b / SCALE`
/// rounded toward zero.
pub fn fmul(a: i64, b: i64) -> (r: i64)
    requires
        i64::MIN <= smul(a as int, b as int) <= i64::MAX,
    ensures
        r == smul(a as int, b as int),
{
    proof {
        lemma_mul_mag(a as int, b as int, 0x8000_0000_0000_0000, 0x8000_0000_0000_0000);
    }
    let p: i128 = (a as i128) * (b as i128);
    proof {
        lemma_tdiv_le(p as int, SCALE as int, 0x4000_0000_0000_0000_0000_0000_0000_0000);
    }
    let q: i128 = p / (SCALE as i128);
    q as i64
}

/// Fixed-point division by a positive divisor. Exact: the result is
/// `a * SCALE / b` rounded toward zero.
pub fn fdiv(a: i64, b: i64) -> (r: i64)
    requires
        b >= 1,
        i64::MIN <= sdiv(a as int, b as int) <= i64::MAX,
    ensures
        r == sdiv(a as int, b as int),
{
    proof {
        lemma_mul_mag(a as int, SCALE as int, 0x8000_0000_0000_0000, SCALE as int);
    }
    let p: i128 = (a as i128) * (SCALE as i128);
    proof {
        lemma_tdiv_le(p as int, b as int, 0x4000_0000_0000_0000_0000_0000_0000_0000);
    }
    let q: i128 = p / (b as i128);
    q as i64
}

/// Integer square root of an unsigned 128-bit value, by bisection.
pub fn isqrt_u128(n: u128) -> (r: u128)
    ensures
        is_sqrt(n as int, r as int),
{
    let mut lo: u128 = 0;
    let mut hi: u128 = 0x1_0000_0000_0000_0000;
    proof {
        assert((hi as int) * (hi as int) > u128::MAX) by (nonlinear_arith)
            requires hi == 0x1_0000_0000_0000_0000u128;
    }
    while lo + 1 < hi
        invariant
            lo < hi <= 0x1_0000_0000_0000_0000,
            lo * lo <= n,
            n < hi * hi,
        decreases hi - lo,
    {
        let mid: u128 = lo + (hi - lo) / 2;
        proof {
            assert((mid as int) * (mid as int) <= u128::MAX) by (nonlinear_arith)
                requires 0 <= mid < 0x1_0000_0000_0000_0000u128;
        }
        if mid * mid <= n {
            lo = mid;
        } else {
            hi = mid;
        }
    }
    lo
}

/// The fixed-point product of two raw 128-bit scalars, exact over `tdiv`.
pub fn mul_div_scale(a: i128, b: i128) -> (r: i128)
    requires
        i128::MIN <= (a as int) * (b as int) <= i128::MAX,
    ensures
        r == tdiv((a as int) * (b as int), SCALE as int),
{
    let p: i128 = a * b;
    proof {
        let m = if p >= 0 {
            p as int
        } else {
            -(p as int)
        };
        lemma_tdiv_le(p as int, SCALE as int, m);
    }
    p / (SCALE as i128)
}

/// Truncating 128-bit division by a positive divisor, exact over `tdiv`.
pub fn div_trunc(a: i128, b: i128) -> (r: i128)
    requires
        b >= 1,
    ensures
        r == tdiv(a as int, b as int),
{
    proof {
        let m = if a >= 0 {
            a as int
        } else {
            -(a as int)
        };
        lemma_tdiv_le(a as int, b as int, m);
    }
    a / b
}

/// Fixed-point square root of a nonnegative scalar. Exact: the result is
/// the integer square root of `x * SCALE`.
pub fn fsqrt(x: i64) -> (r: i64)
    requires
        x >= 0,
    ensures
        r == ssqrt(x as int),
        is_sqrt(x * (SCALE as int), r as int),
        0 <= r,
        r * r <= x * (SCALE as int),
{
    proof {
        assert((x as int) * (SCALE as int) < 0x1000_0000_0000_0000_0000_0000int)
            by (nonlinear_arith)
            requires 0 <= x <= 0x7fff_ffff_ffff_ffffi64;
    }
    let n: u128 = (x as u128) * (SCALE as u128);
    let s = isqrt_u128(n);
    proof {
        lemma_sqrt_is(n as int, s as int);
        assert(s * s <= n < 0x1000_0000_0000_0000_0000_0000);
        assert(s < 0x8_0000_0000_0000u128) by {
            if s >= 0x8_0000_0000_0000u128 {
                assert(s * s >= 0x40_0000_0000_0000_0000_0000_0000int) by (nonlinear_arith)
                    requires s >= 0x8_0000_0000_0000u128;
            }
        }
    }
    s as i64
}

} // verus!
