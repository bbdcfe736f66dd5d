//! Fixed-point scalar arithmetic for the renderer.
//!
//! Every coordinate, distance and colour channel is an `i64` carrying 16
//! fractional bits, so the raw value `ONE` stands for the real number 1.
//! Multiplication, division and square root are specified exactly over `int`,
//! with truncating (round-toward-zero) division matching Rust's `/`.

use vstd::prelude::*;
use vstd::arithmetic::div_mod::{
    lemma_div_basics_2, lemma_div_basics_5, lemma_div_is_ordered,
    lemma_div_is_ordered_by_denominator, lemma_div_multiples_vanish, lemma_div_pos_is_pos,
    lemma_fundamental_div_mod, lemma_mod_bound,
};
use vstd::arithmetic::mul::lemma_mul_upper_bound;

verus! {

/// Scale of the fixed-point representation: 2^16.
pub const ONE: i64 = 65536;

/// Magnitude of an integer.
pub open spec fn iabs(a: int) -> int {
    if a >= 0 { a } else { -a }
}

/// Truncating (round-toward-zero) division, the semantics of Rust's `/` on
/// signed integers. `/` on `int` is Euclidean, hence the explicit sign split.
pub open spec fn tdiv(a: int, b: int) -> int
    recommends b != 0,
{
    if (a >= 0) == (b >= 0) { iabs(a) / iabs(b) } else { -(iabs(a) / iabs(b)) }
}

/// Product of two fixed-point values.
pub open spec fn fx_mul_spec(a: int, b: int) -> int {
    tdiv(a * b, ONE as int)
}

/// Quotient of two fixed-point values.
pub open spec fn fx_div_spec(a: int, b: int) -> int
    recommends b != 0,
{
    tdiv(a * ONE, b)
}

/// Integer square root (floor of the real square root), by the classical
/// base-4 recurrence.
pub open spec fn isqrt_spec(n: int) -> int
    decreases n,
{
    if n <= 0 {
        0
    } else {
        let r = 2 * isqrt_spec(n / 4);
        if (r + 1) * (r + 1) <= n { r + 1 } else { r }
    }
}

/// Square root of a fixed-point value: sqrt(a / ONE) = isqrt(a * ONE) / ONE.
pub open spec fn fx_sqrt_spec(a: int) -> int
    recommends a >= 0,
{
    isqrt_spec(a * ONE)
}

/// The magnitude of a product is the product of the magnitudes.
pub proof fn lemma_abs_mul(a: int, b: int)
    ensures
        iabs(a * b) == iabs(a) * iabs(b),
{
    if a >= 0 && b >= 0 {
        assert(a * b >= 0) by (nonlinear_arith)
            requires a >= 0, b >= 0,
        ;
    } else if a < 0 && b < 0 {
        assert(a * b >= 0 && a * b == (-a) * (-b)) by (nonlinear_arith)
            requires a < 0, b < 0,
        ;
    } else if a >= 0 && b < 0 {
        assert(a * b <= 0 && -(a * b) == a * (-b)) by (nonlinear_arith)
            requires a >= 0, b < 0,
        ;
    } else {
        assert(a * b <= 0 && -(a * b) == (-a) * b) by (nonlinear_arith)
            requires a < 0, b >= 0,
        ;
    }
}

pub proof fn lemma_isqrt(n: int)
    requires
        n >= 0,
    ensures
        isqrt_spec(n) >= 0,
        isqrt_spec(n) * isqrt_spec(n) <= n,
        n < (isqrt_spec(n) + 1) * (isqrt_spec(n) + 1),
    decreases n,
{
    if n == 0 {
    } else {
        lemma_fundamental_div_mod(n, 4);
        lemma_mod_bound(n, 4);
        lemma_div_pos_is_pos(n, 4);
        assert(0 <= n / 4 < n);
        lemma_isqrt(n / 4);
        let r0 = isqrt_spec(n / 4);
        let r = 2 * r0;
        assert(r * r <= n && n < (r + 2) * (r + 2)) by (nonlinear_arith)
            requires
                r == 2 * r0,
                r0 >= 0,
                r0 * r0 <= n / 4,
                n / 4 < (r0 + 1) * (r0 + 1),
                n == 4 * (n / 4) + n % 4,
                0 <= n % 4 < 4,
        ;
        if (r + 1) * (r + 1) <= n {
            assert(isqrt_spec(n) == r + 1);
        } else {
            assert(isqrt_spec(n) == r);
        }
    }
}

/// The bracketing property determines the integer square root uniquely.
pub proof fn lemma_isqrt_unique(n: int, r: int)
    requires
        n >= 0,
        r >= 0,
        r * r <= n,
        n < (r + 1) * (r + 1),
    ensures
        r == isqrt_spec(n),
{
    lemma_isqrt(n);
    let s = isqrt_spec(n);
    if r < s {
        assert(false) by (nonlinear_arith)
            requires r >= 0, s >= 0, r < s, s * s <= n, n < (r + 1) * (r + 1),
        ;
    }
    if s < r {
        assert(false) by (nonlinear_arith)
            requires r >= 0, s >= 0, s < r, r * r <= n, n < (s + 1) * (s + 1),
        ;
    }
}

/// An upper bound on the argument yields an upper bound on the root.
pub proof fn lemma_isqrt_le(n: int, m: int)
    requires
        0 <= n,
        0 <= m,
        n <= m * m,
    ensures
        isqrt_spec(n) <= m,
{
    lemma_isqrt(n);
    let s = isqrt_spec(n);
    if m < s {
        assert(false) by (nonlinear_arith)
            requires m >= 0, s >= 0, m < s, s * s <= n, n <= m * m,
        ;
    }
}

/// Integer square root over the machine range, by bisection.
pub fn isqrt64(n: u128) -> (r: u64)
    requires
        n < 0x1000000000000000000000000000000,
    ensures
        r as int == isqrt_spec(n as int),
{
    let mut lo: u128 = 0;
    let mut hi: u128 = 0x1000000000000000;
    assert((0x1000000000000000 as int) * (0x1000000000000000 as int)
        == 0x1000000000000000000000000000000);
    while lo + 1 < hi
        invariant
            0 <= lo < hi <= 0x1000000000000000,
            lo * lo <= n,
            (n as int) < (hi as int) * (hi as int),
        decreases hi - lo,
    {
        let mid = lo + (hi - lo) / 2;
        assert(lo < mid < hi);
        assert((mid as int) * (mid as int) <= 0x1000000000000000000000000000000) by (nonlinear_arith)
            requires 0 <= mid as int <= 0x1000000000000000,
        ;
        if mid * mid <= n {
            lo = mid;
        } else {
            hi = mid;
        }
    }
    proof {
        lemma_isqrt_unique(n as int, lo as int);
    }
    lo as u64
}

/// Scale a raw double-width value back down by ONE, rounding toward zero.
pub(crate) fn shift_down(p: i128) -> (r: i64)
    requires
        iabs(p as int) <= i64::MAX * ONE,
    ensures
        r as int == tdiv(p as int, ONE as int),
{
    let neg: bool = p < 0;
    let mag: u128 = if p < 0 { (-p) as u128 } else { p as u128 };
    let q: u128 = mag / 65536;
    proof {
        assert(mag as int == iabs(p as int));
        lemma_div_is_ordered(mag as int, i64::MAX * ONE, 65536);
        lemma_div_multiples_vanish(i64::MAX as int, 65536);
        assert(i64::MAX * ONE == 65536 * (i64::MAX as int));
        lemma_div_pos_is_pos(mag as int, 65536);
    }
    let qi: i128 = q as i128;
    let r128: i128 = if neg { -qi } else { qi };
    r128 as i64
}

/// Fixed-point product.
pub fn fx_mul(a: i64, b: i64) -> (r: i64)
    requires
        iabs(a as int) * iabs(b as int) <= i64::MAX * ONE,
    ensures
        r as int == fx_mul_spec(a as int, b as int),
{
    proof {
        lemma_abs_mul(a as int, b as int);
    }
    let p: i128 = (a as i128) * (b as i128);
    shift_down(p)
}

/// Fixed-point quotient.
pub fn fx_div(a: i64, b: i64) -> (r: i64)
    requires
        b != 0,
        iabs(a as int) <= i64::MAX / ONE,
    ensures
        r as int == fx_div_spec(a as int, b as int),
{
    let p: i128 = (a as i128) * 65536;
    let bi: i128 = b as i128;
    let neg: bool = (p < 0) != (bi < 0);
    let pmag: u128 = if p < 0 { (-p) as u128 } else { p as u128 };
    let bmag: u128 = if bi < 0 { (-bi) as u128 } else { bi as u128 };
    proof {
        assert(pmag as int == iabs((a as int) * ONE));
        assert(bmag as int == iabs(b as int));
        assert(bmag >= 1);
    }
    let q: u128 = pmag / bmag;
    proof {
        lemma_div_is_ordered_by_denominator(pmag as int, 1, bmag as int);
        lemma_div_basics_2(pmag as int);
        lemma_div_pos_is_pos(pmag as int, bmag as int);
        assert(pmag as int <= (i64::MAX / ONE) * 65536);
        assert(((i64::MAX / ONE) as int) * 65536 <= i64::MAX as int);
    }
    let qi: i128 = q as i128;
    let r128: i128 = if neg { -qi } else { qi };
    r128 as i64
}

/// Truncating division of a fixed-point value by a plain positive integer.
pub fn idiv(a: i64, b: i64) -> (r: i64)
    requires
        b >= 1,
        a > i64::MIN,
    ensures
        r as int == tdiv(a as int, b as int),
{
    let neg: bool = a < 0;
    let mag: u64 = if a < 0 { (-a) as u64 } else { a as u64 };
    let q: u64 = mag / (b as u64);
    proof {
        lemma_div_is_ordered_by_denominator(mag as int, 1, b as int);
        lemma_div_basics_2(mag as int);
        lemma_div_pos_is_pos(mag as int, b as int);
    }
    let qi: i64 = q as i64;
    if neg { -qi } else { qi }
}

/// Truncating division of one plain integer by another.
pub fn idiv_signed(a: i64, b: i64) -> (r: i64)
    requires
        b != 0,
        a > i64::MIN,
        b > i64::MIN,
    ensures
        r as int == tdiv(a as int, b as int),
{
    let neg: bool = (a < 0) != (b < 0);
    let amag: u64 = if a < 0 { (-a) as u64 } else { a as u64 };
    let bmag: u64 = if b < 0 { (-b) as u64 } else { b as u64 };
    let q: u64 = amag / bmag;
    proof {
        lemma_div_is_ordered_by_denominator(amag as int, 1, bmag as int);
        lemma_div_basics_2(amag as int);
        lemma_div_pos_is_pos(amag as int, bmag as int);
    }
    let qi: i64 = q as i64;
    if neg { -qi } else { qi }
}

/// Fixed-point square root.
pub fn fx_sqrt(a: i64) -> (r: i64)
    requires
        a >= 0,
    ensures
        r as int == fx_sqrt_spec(a as int),
        0 <= r as int <= 0x10000000000,
{
    let n: u128 = (a as u128) * 65536;
    proof {
        assert((a as int) * 65536 < 0x1000000000000000000000000000000);
        assert((0x10000000000 as int) * (0x10000000000 as int) >= (i64::MAX as int) * 65536);
        lemma_isqrt_le((a as int) * 65536, 0x10000000000);
        lemma_isqrt((a as int) * 65536);
    }
    let r64: u64 = isqrt64(n);
    r64 as i64
}

/// Clamp a fixed-point value into [0, 1], the range of a cosine weight.
pub open spec fn clamp01_spec(c: int) -> int {
    if c < 0 { 0 } else if c > ONE { ONE as int } else { c }
}

pub fn clamp01(c: i64) -> (r: i64)
    ensures
        r as int == clamp01_spec(c as int),
        0 <= r <= ONE,
{
    if c < 0 {
        0
    } else if c > ONE {
        ONE
    } else {
        c
    }
}

/// The circle constant, in fixed point.
pub const PI_FX: i64 = 205887;

/// A fixed-point product of non-negative factors is non-negative.
pub proof fn lemma_fx_mul_nonneg(a: int, b: int)
    requires
        a >= 0,
        b >= 0,
    ensures
        fx_mul_spec(a, b) >= 0,
{
    assert(a * b >= 0) by (nonlinear_arith)
        requires a >= 0, b >= 0,
    ;
    lemma_div_pos_is_pos(a * b, ONE as int);
}

/// Truncating division by a positive divisor keeps the dividend's sign.
pub proof fn lemma_tdiv_sign(a: int, b: int)
    requires
        b >= 1,
    ensures
        a >= 0 ==> tdiv(a, b) >= 0,
        a <= 0 ==> tdiv(a, b) <= 0,
{
    lemma_div_pos_is_pos(iabs(a), b);
}

/// The magnitude of a truncating quotient is the quotient of the magnitudes.
pub proof fn lemma_tdiv_mag(a: int, b: int)
    requires
        b != 0,
    ensures
        iabs(tdiv(a, b)) == iabs(a) / iabs(b),
        0 <= iabs(a) / iabs(b),
{
    lemma_div_pos_is_pos(iabs(a), iabs(b));
}

/// Truncating division undoes an exact multiplication.
pub proof fn lemma_tdiv_mul_exact(x: int, b: int)
    requires
        b >= 1,
    ensures
        tdiv(x * b, b) == x,
{
    lemma_abs_mul(x, b);
    assert(iabs(x) * b == b * iabs(x)) by (nonlinear_arith);
    lemma_div_multiples_vanish(iabs(x), b);
    if x >= 0 {
        assert(x * b >= 0) by (nonlinear_arith)
            requires x >= 0, b >= 1,
        ;
    } else {
        assert(x * b < 0) by (nonlinear_arith)
            requires x < 0, b >= 1,
        ;
    }
}

/// Truncating division is odd in its dividend.
pub proof fn lemma_tdiv_neg(a: int, b: int)
    requires
        b != 0,
    ensures
        tdiv(-a, b) == -tdiv(a, b),
{
}

/// Magnitude bound for a truncating quotient: |a tdiv b| <= |a| for b >= 1.
pub proof fn lemma_tdiv_le(a: int, b: int)
    requires
        b >= 1,
    ensures
        iabs(tdiv(a, b)) <= iabs(a),
        0 <= iabs(tdiv(a, b)),
{
    lemma_div_basics_5(iabs(a), b);
    lemma_div_pos_is_pos(iabs(a), b);
}

/// Magnitude bound for a truncating quotient against a bound on the dividend.
pub proof fn lemma_tdiv_bound(a: int, b: int, aa: int)
    requires
        b >= 1,
        iabs(a) <= aa,
    ensures
        iabs(tdiv(a, b)) <= aa / b,
        -aa <= tdiv(a, b) <= aa,
{
    lemma_tdiv_le(a, b);
    lemma_div_is_ordered(iabs(a), aa, b);
    lemma_div_basics_5(aa, b);
}

/// Magnitude bound for a fixed-point product against bounds on the factors.
pub proof fn lemma_fx_mul_bound(a: int, b: int, aa: int, bb: int)
    requires
        iabs(a) <= aa,
        iabs(b) <= bb,
    ensures
        iabs(a * b) <= aa * bb,
        iabs(a) * iabs(b) <= aa * bb,
        iabs(fx_mul_spec(a, b)) <= (aa * bb) / (ONE as int),
        -((aa * bb) / (ONE as int)) <= fx_mul_spec(a, b) <= (aa * bb) / (ONE as int),
{
    lemma_abs_mul(a, b);
    lemma_mul_upper_bound(iabs(a), aa, iabs(b), bb);
    lemma_tdiv_bound(a * b, ONE as int, aa * bb);
    lemma_div_is_ordered(iabs(a * b), aa * bb, ONE as int);
    lemma_tdiv_le(a * b, ONE as int);
}

/// Magnitude bound for a fixed-point quotient: |a / b| <= |a| * ONE for b != 0.
pub proof fn lemma_fx_div_bound(a: int, b: int, aa: int)
    requires
        b != 0,
        iabs(a) <= aa,
    ensures
        iabs(fx_div_spec(a, b)) <= aa * (ONE as int),
        -(aa * (ONE as int)) <= fx_div_spec(a, b) <= aa * (ONE as int),
{
    let m = iabs(b);
    assert(m >= 1);
    assert(iabs(a * ONE) == iabs(a) * ONE) by {
        lemma_abs_mul(a, ONE as int);
    }
    assert(iabs(a) * (ONE as int) <= aa * (ONE as int));
    lemma_div_pos_is_pos(iabs(a * ONE), m);
    assert(iabs(tdiv(a * ONE, b)) == iabs(a * ONE) / m);
    lemma_div_is_ordered(iabs(a * ONE), aa * (ONE as int), m);
    lemma_div_basics_5(aa * (ONE as int), m);
}

} // verus!
