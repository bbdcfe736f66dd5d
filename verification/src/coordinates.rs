//! Pixel coordinates and fixed-point 3-D vector algebra.
//!
//! `Coordinates3D` serves both as a point and as a direction. Its mathematical
//! value is the `Vec3i` view, a triple of unbounded integers; every operation
//! has an exact contract over that view.

use vstd::prelude::*;
use crate::fixed::{
    fx_mul, fx_mul_spec, fx_sqrt, fx_sqrt_spec, iabs, lemma_abs_mul, lemma_fx_mul_bound,
    shift_down, tdiv, ONE,
};
use vstd::arithmetic::div_mod::{lemma_div_is_ordered, lemma_div_pos_is_pos};

verus! {

/// Bound on the components of scene geometry (centres, corners, positions).
pub const CMAX: i64 = 0x100000000;

/// Bound on the components of a ray origin: camera viewport points and biased
/// hit locations stay within three times the scene bound.
pub const OMAX: i64 = 0x300000000;

/// Bound on the components of a hit location kept by the renderer; hits
/// farther out than the scene bound are discarded, so that every biased
/// location is again a valid ray origin.
pub const LOC_MAX: i64 = CMAX - ONE;

/// Bound on the components of a normalized direction. A true unit vector has
/// components of magnitude at most ONE; rounding in the fixed-point
/// normalization can push them slightly above, never past 2 * ONE.
pub const UNIT_MAX: i64 = 131072;

/// Bound on the components of a precomputed inverse direction: |ONE / u| with
/// |u| >= 1 is at most ONE * ONE.
pub const INV_MAX: i64 = 0x100000000;

/// Bound on the components of a vector handed to normalization.
pub const DELTA_MAX: i64 = 0x1000000000;

/// A pixel position on the output image.
#[derive(Clone, Copy, Debug, PartialEq, Eq, Structural)]
pub struct Coordinates2D {
    pub x: u32,
    pub y: u32,
}

impl Coordinates2D {
    pub fn new(x: u32, y: u32) -> (r: Coordinates2D)
        ensures
            r.x == x,
            r.y == y,
    {
        Coordinates2D { x, y }
    }
}

/// The mathematical value of a `Coordinates3D`: raw fixed-point components as
/// unbounded integers.
pub ghost struct Vec3i {
    pub x: int,
    pub y: int,
    pub z: int,
}

/// Component-wise magnitude bound.
pub open spec fn bounded3(a: Vec3i, m: int) -> bool {
    iabs(a.x) <= m && iabs(a.y) <= m && iabs(a.z) <= m
}

pub open spec fn vadd(a: Vec3i, b: Vec3i) -> Vec3i {
    Vec3i { x: a.x + b.x, y: a.y + b.y, z: a.z + b.z }
}

pub open spec fn vsub(a: Vec3i, b: Vec3i) -> Vec3i {
    Vec3i { x: a.x - b.x, y: a.y - b.y, z: a.z - b.z }
}

pub open spec fn vneg(a: Vec3i) -> Vec3i {
    Vec3i { x: -a.x, y: -a.y, z: -a.z }
}

/// Scale by a fixed-point factor.
pub open spec fn vscale(a: Vec3i, s: int) -> Vec3i {
    Vec3i { x: fx_mul_spec(a.x, s), y: fx_mul_spec(a.y, s), z: fx_mul_spec(a.z, s) }
}

/// Scale by a plain integer factor (no rescaling).
pub open spec fn vscale_int(a: Vec3i, s: int) -> Vec3i {
    Vec3i { x: a.x * s, y: a.y * s, z: a.z * s }
}

/// Fixed-point dot product: the raw component products are summed before the
/// single rescaling division.
pub open spec fn vdot(a: Vec3i, b: Vec3i) -> int {
    tdiv(a.x * b.x + a.y * b.y + a.z * b.z, ONE as int)
}

pub open spec fn vcross(a: Vec3i, b: Vec3i) -> Vec3i {
    Vec3i {
        x: fx_mul_spec(a.y, b.z) - fx_mul_spec(a.z, b.y),
        y: fx_mul_spec(a.z, b.x) - fx_mul_spec(a.x, b.z),
        z: fx_mul_spec(a.x, b.y) - fx_mul_spec(a.y, b.x),
    }
}

pub open spec fn vnorm(a: Vec3i) -> int {
    fx_sqrt_spec(vdot(a, a))
}

pub open spec fn vdist(a: Vec3i, b: Vec3i) -> int {
    vnorm(vsub(a, b))
}

/// Component-wise (Hadamard) fixed-point product, used for colour filtering.
pub open spec fn vmul_elem(a: Vec3i, b: Vec3i) -> Vec3i {
    Vec3i { x: fx_mul_spec(a.x, b.x), y: fx_mul_spec(a.y, b.y), z: fx_mul_spec(a.z, b.z) }
}

pub open spec fn vzero() -> Vec3i {
    Vec3i { x: 0, y: 0, z: 0 }
}

/// The normalized direction carried by a vector, or nothing for a degenerate
/// one: zero within the fixed-point resolution, or normalizing to a component
/// outside the representable direction range.
pub open spec fn normalize_spec(d: Vec3i) -> Option<Vec3i> {
    let d2 = vdot(d, d);
    if d2 == 0 {
        None
    } else {
        let n = fx_sqrt_spec(d2);
        let u = Vec3i {
            x: crate::fixed::fx_div_spec(d.x, n),
            y: crate::fixed::fx_div_spec(d.y, n),
            z: crate::fixed::fx_div_spec(d.z, n),
        };
        if !bounded3(u, UNIT_MAX as int) {
            None
        } else {
            Some(u)
        }
    }
}

/// A point or direction in the scene, in 16-bit fixed point.
#[derive(Clone, Copy, Debug, PartialEq, Eq, Structural)]
pub struct Coordinates3D {
    pub x: i64,
    pub y: i64,
    pub z: i64,
}

impl View for Coordinates3D {
    type V = Vec3i;

    open spec fn view(&self) -> Vec3i {
        Vec3i { x: self.x as int, y: self.y as int, z: self.z as int }
    }
}

/// A dot product of a vector with itself is non-negative.
pub proof fn lemma_vdot_self_nonneg(a: Vec3i)
    ensures
        vdot(a, a) >= 0,
{
    assert(a.x * a.x >= 0) by (nonlinear_arith);
    assert(a.y * a.y >= 0) by (nonlinear_arith);
    assert(a.z * a.z >= 0) by (nonlinear_arith);
    lemma_div_pos_is_pos(a.x * a.x + a.y * a.y + a.z * a.z, ONE as int);
}

/// Magnitude bound for a cross product against component bounds.
pub proof fn lemma_vcross_bound(a: Vec3i, b: Vec3i, aa: int, bb: int)
    requires
        bounded3(a, aa),
        bounded3(b, bb),
    ensures
        bounded3(vcross(a, b), 2 * ((aa * bb) / (ONE as int))),
{
    lemma_fx_mul_bound(a.y, b.z, aa, bb);
    lemma_fx_mul_bound(a.z, b.y, aa, bb);
    lemma_fx_mul_bound(a.z, b.x, aa, bb);
    lemma_fx_mul_bound(a.x, b.z, aa, bb);
    lemma_fx_mul_bound(a.x, b.y, aa, bb);
    lemma_fx_mul_bound(a.y, b.x, aa, bb);
}

/// A dot product against a negated vector is the negated dot product.
pub proof fn lemma_vdot_neg(a: Vec3i, b: Vec3i)
    ensures
        vdot(a, vneg(b)) == -vdot(a, b),
{
    assert(a.x * (-b.x) == -(a.x * b.x)) by (nonlinear_arith);
    assert(a.y * (-b.y) == -(a.y * b.y)) by (nonlinear_arith);
    assert(a.z * (-b.z) == -(a.z * b.z)) by (nonlinear_arith);
    crate::fixed::lemma_tdiv_neg(a.x * b.x + a.y * b.y + a.z * b.z, ONE as int);
}

/// Magnitude bound for a dot product against component bounds.
pub proof fn lemma_vdot_bound(a: Vec3i, b: Vec3i, aa: int, bb: int)
    requires
        bounded3(a, aa),
        bounded3(b, bb),
    ensures
        iabs(a.x * b.x + a.y * b.y + a.z * b.z) <= 3 * (aa * bb),
        iabs(a.x * b.x) + iabs(a.y * b.y) + iabs(a.z * b.z) <= 3 * (aa * bb),
        iabs(vdot(a, b)) <= (3 * (aa * bb)) / (ONE as int),
        -(3 * (aa * bb)) <= vdot(a, b) <= 3 * (aa * bb),
{
    lemma_abs_mul(a.x, b.x);
    lemma_abs_mul(a.y, b.y);
    lemma_abs_mul(a.z, b.z);
    assert(iabs(a.x) * iabs(b.x) <= aa * bb) by (nonlinear_arith)
        requires 0 <= iabs(a.x) <= aa, 0 <= iabs(b.x) <= bb,
    ;
    assert(iabs(a.y) * iabs(b.y) <= aa * bb) by (nonlinear_arith)
        requires 0 <= iabs(a.y) <= aa, 0 <= iabs(b.y) <= bb,
    ;
    assert(iabs(a.z) * iabs(b.z) <= aa * bb) by (nonlinear_arith)
        requires 0 <= iabs(a.z) <= aa, 0 <= iabs(b.z) <= bb,
    ;
    crate::fixed::lemma_tdiv_bound(a.x * b.x + a.y * b.y + a.z * b.z, ONE as int, 3 * (aa * bb));
    lemma_div_is_ordered(iabs(a.x * b.x + a.y * b.y + a.z * b.z), 3 * (aa * bb), ONE as int);
    crate::fixed::lemma_tdiv_le(a.x * b.x + a.y * b.y + a.z * b.z, ONE as int);
}

impl Coordinates3D {
    pub fn new(x: i64, y: i64, z: i64) -> (r: Coordinates3D)
        ensures
            r@ == (Vec3i { x: x as int, y: y as int, z: z as int }),
    {
        Coordinates3D { x, y, z }
    }

    pub fn zero() -> (r: Coordinates3D)
        ensures
            r@ == vzero(),
    {
        Coordinates3D { x: 0, y: 0, z: 0 }
    }

    pub fn add(&self, other: &Coordinates3D) -> (r: Coordinates3D)
        requires
            iabs(self@.x + other@.x) <= i64::MAX,
            iabs(self@.y + other@.y) <= i64::MAX,
            iabs(self@.z + other@.z) <= i64::MAX,
        ensures
            r@ == vadd(self@, other@),
    {
        Coordinates3D { x: self.x + other.x, y: self.y + other.y, z: self.z + other.z }
    }

    pub fn sub(&self, other: &Coordinates3D) -> (r: Coordinates3D)
        requires
            iabs(self@.x - other@.x) <= i64::MAX,
            iabs(self@.y - other@.y) <= i64::MAX,
            iabs(self@.z - other@.z) <= i64::MAX,
        ensures
            r@ == vsub(self@, other@),
    {
        Coordinates3D { x: self.x - other.x, y: self.y - other.y, z: self.z - other.z }
    }

    pub fn neg(&self) -> (r: Coordinates3D)
        requires
            self@.x > i64::MIN,
            self@.y > i64::MIN,
            self@.z > i64::MIN,
        ensures
            r@ == vneg(self@),
    {
        Coordinates3D { x: -self.x, y: -self.y, z: -self.z }
    }

    /// Scale by a fixed-point factor.
    pub fn mul(&self, s: i64) -> (r: Coordinates3D)
        requires
            iabs(self@.x) * iabs(s as int) <= i64::MAX * ONE,
            iabs(self@.y) * iabs(s as int) <= i64::MAX * ONE,
            iabs(self@.z) * iabs(s as int) <= i64::MAX * ONE,
        ensures
            r@ == vscale(self@, s as int),
    {
        Coordinates3D { x: fx_mul(self.x, s), y: fx_mul(self.y, s), z: fx_mul(self.z, s) }
    }

    /// Scale by a plain integer factor.
    pub fn mul_int(&self, s: i64) -> (r: Coordinates3D)
        requires
            iabs(self@.x * s) <= i64::MAX,
            iabs(self@.y * s) <= i64::MAX,
            iabs(self@.z * s) <= i64::MAX,
        ensures
            r@ == vscale_int(self@, s as int),
    {
        proof {
            lemma_abs_mul(self@.x, s as int);
            lemma_abs_mul(self@.y, s as int);
            lemma_abs_mul(self@.z, s as int);
        }
        let x: i128 = (self.x as i128) * (s as i128);
        let y: i128 = (self.y as i128) * (s as i128);
        let z: i128 = (self.z as i128) * (s as i128);
        Coordinates3D { x: x as i64, y: y as i64, z: z as i64 }
    }

    pub fn dot(&self, other: &Coordinates3D) -> (r: i64)
        requires
            iabs(self@.x * other@.x) + iabs(self@.y * other@.y) + iabs(self@.z * other@.z)
                <= i64::MAX * ONE,
        ensures
            r as int == vdot(self@, other@),
    {
        proof {
            lemma_abs_mul(self@.x, other@.x);
            lemma_abs_mul(self@.y, other@.y);
            lemma_abs_mul(self@.z, other@.z);
        }
        let px: i128 = (self.x as i128) * (other.x as i128);
        let py: i128 = (self.y as i128) * (other.y as i128);
        let pz: i128 = (self.z as i128) * (other.z as i128);
        shift_down(px + py + pz)
    }

    pub fn cross(&self, other: &Coordinates3D) -> (r: Coordinates3D)
        requires
            bounded3(self@, 0x2000000000),
            bounded3(other@, 0x2000000000),
        ensures
            r@ == vcross(self@, other@),
    {
        proof {
            lemma_fx_mul_bound(self@.y, other@.z, 0x2000000000, 0x2000000000);
            lemma_fx_mul_bound(self@.z, other@.y, 0x2000000000, 0x2000000000);
            lemma_fx_mul_bound(self@.z, other@.x, 0x2000000000, 0x2000000000);
            lemma_fx_mul_bound(self@.x, other@.z, 0x2000000000, 0x2000000000);
            lemma_fx_mul_bound(self@.x, other@.y, 0x2000000000, 0x2000000000);
            lemma_fx_mul_bound(self@.y, other@.x, 0x2000000000, 0x2000000000);
        }
        Coordinates3D {
            x: fx_mul(self.y, other.z) - fx_mul(self.z, other.y),
            y: fx_mul(self.z, other.x) - fx_mul(self.x, other.z),
            z: fx_mul(self.x, other.y) - fx_mul(self.y, other.x),
        }
    }

    /// Euclidean norm, in fixed point.
    pub fn norm(&self) -> (r: i64)
        requires
            bounded3(self@, 0x2000000000),
        ensures
            r as int == vnorm(self@),
            r >= 0,
    {
        proof {
            lemma_vdot_bound(self@, self@, 0x2000000000, 0x2000000000);
            lemma_vdot_self_nonneg(self@);
        }
        let d2 = self.dot(self);
        fx_sqrt(d2)
    }

    /// Distance between two points, in fixed point.
    pub fn dist(&self, other: &Coordinates3D) -> (r: i64)
        requires
            bounded3(self@, 0x1000000000),
            bounded3(other@, 0x1000000000),
        ensures
            r as int == vdist(self@, other@),
            r >= 0,
    {
        let d = self.sub(other);
        d.norm()
    }

    /// Normalize to unit length, or nothing for a vector shorter than the
    /// fixed-point resolution or with a quotient outside the direction range.
    pub fn normalize(&self) -> (r: Option<Coordinates3D>)
        requires
            bounded3(self@, DELTA_MAX as int),
        ensures
            (r is Some) == (normalize_spec(self@) is Some),
            r matches Some(u) ==> Some(u@) == normalize_spec(self@) && bounded3(
                u@,
                UNIT_MAX as int,
            ),
            r matches Some(u) ==> (self@.x >= 0 ==> u@.x >= 0) && (self@.x <= 0 ==> u@.x <= 0)
                && (self@.y >= 0 ==> u@.y >= 0) && (self@.y <= 0 ==> u@.y <= 0) && (self@.z >= 0
                ==> u@.z >= 0) && (self@.z <= 0 ==> u@.z <= 0),
    {
        proof {
            lemma_vdot_bound(self@, self@, DELTA_MAX as int, DELTA_MAX as int);
            lemma_vdot_self_nonneg(self@);
        }
        let d2 = self.dot(self);
        if d2 == 0 {
            return None;
        }
        let n = fx_sqrt(d2);
        proof {
            crate::fixed::lemma_isqrt((d2 as int) * ONE);
            if n == 0 {
                let s = crate::fixed::isqrt_spec((d2 as int) * ONE);
                assert(s == 0);
                assert((s + 1) * (s + 1) == 1) by (nonlinear_arith)
                    requires s == 0,
                ;
                assert((d2 as int) * ONE >= 65536);
                assert(false);
            }
            assert(n >= 1);
        }
        let ux = crate::fixed::fx_div(self.x, n);
        let uy = crate::fixed::fx_div(self.y, n);
        let uz = crate::fixed::fx_div(self.z, n);
        if ux > UNIT_MAX || ux < -UNIT_MAX || uy > UNIT_MAX || uy < -UNIT_MAX || uz > UNIT_MAX
            || uz < -UNIT_MAX {
            return None;
        }
        proof {
            crate::fixed::lemma_tdiv_sign(self@.x * ONE, n as int);
            crate::fixed::lemma_tdiv_sign(self@.y * ONE, n as int);
            crate::fixed::lemma_tdiv_sign(self@.z * ONE, n as int);
        }
        Some(Coordinates3D { x: ux, y: uy, z: uz })
    }

    /// Component-wise (Hadamard) product, used for colour filtering.
    pub fn mul_elem(&self, other: &Coordinates3D) -> (r: Coordinates3D)
        requires
            iabs(self@.x) * iabs(other@.x) <= i64::MAX * ONE,
            iabs(self@.y) * iabs(other@.y) <= i64::MAX * ONE,
            iabs(self@.z) * iabs(other@.z) <= i64::MAX * ONE,
        ensures
            r@ == vmul_elem(self@, other@),
    {
        Coordinates3D {
            x: fx_mul(self.x, other.x),
            y: fx_mul(self.y, other.y),
            z: fx_mul(self.z, other.z),
        }
    }
}

} // verus!
