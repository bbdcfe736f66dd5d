//! Standalone ray–sphere intersection routines: a bare sphere, the
//! quadratic solved for both roots, and a unit vector between two points.

use vstd::prelude::*;
use crate::coordinates::{
    bounded3, normalize_spec, vadd, vdot, vscale, vsub, Coordinates3D, Vec3i, CMAX, OMAX,
    UNIT_MAX,
    lemma_vdot_bound, lemma_vdot_self_nonneg,
};
use crate::fixed::{
    fx_mul, fx_mul_spec, fx_sqrt, fx_sqrt_spec, lemma_fx_mul_bound, ONE,
};
use crate::line::{Line, LineV};

verus! {

pub struct Sphere {
    pub centre: Coordinates3D,
    pub r: i64,
}

pub open spec fn bare_sphere_wf(s: Sphere) -> bool {
    &&& bounded3(s.centre@, CMAX as int)
    &&& 0 <= s.r <= CMAX
}

/// The point `dist` along a line.
pub open spec fn line_point_spec(line: LineV, dist: int) -> Vec3i {
    vadd(line.origin, vscale(line.unit_vec, dist))
}

/// The two quadratic roots of a line–sphere intersection, tangent lines
/// collapsing to a single root; nothing when the line misses. Both roots are
/// reported whatever their sign: the line is infinite in both directions.
pub open spec fn intersect_sphere_spec(s: Sphere, line: LineV) -> Option<Seq<(Vec3i, int)>> {
    let oc = vsub(line.origin, s.centre@);
    let b = vdot(line.unit_vec, oc);
    let disc = fx_mul_spec(b, b) - (vdot(oc, oc) - fx_mul_spec(s.r as int, s.r as int));
    if disc < 0 {
        None
    } else if disc == 0 {
        Some(seq![(line_point_spec(line, -b), -b)])
    } else {
        let sq = fx_sqrt_spec(disc);
        Some(
            seq![
                (line_point_spec(line, -b + sq), -b + sq),
                (line_point_spec(line, -b - sq), -b - sq),
            ],
        )
    }
}

impl Sphere {
    pub fn new(centre: Coordinates3D, r: i64) -> (s: Sphere)
        ensures
            s == (Sphere { centre, r }),
    {
        Sphere { centre, r }
    }

    /// All intersections of an infinite line with this sphere, each as a
    /// point and its signed parameter along the line.
    pub fn intersect_sphere(&self, line: &Line) -> (res: Option<Vec<(Coordinates3D, i64)>>)
        requires
            bare_sphere_wf(*self),
            bounded3(line@.origin, OMAX as int),
            bounded3(line@.unit_vec, UNIT_MAX as int),
        ensures
            (res is Some) == (intersect_sphere_spec(*self, line@) is Some),
            res matches Some(v) ==> {
                let spec = intersect_sphere_spec(*self, line@)->Some_0;
                v@.len() == spec.len() && forall|j: int|
                    0 <= j < v@.len() ==> ((#[trigger] v@[j]).0@, v@[j].1 as int) == spec[j]
            },
    {
        let oc = line.origin.sub(&self.centre);
        proof {
            lemma_vdot_bound(line@.unit_vec, oc@, UNIT_MAX as int, 0x400000000);
            lemma_vdot_bound(oc@, oc@, 0x400000000, 0x400000000);
            lemma_vdot_self_nonneg(oc@);
        }
        let b = line.unit_vec.dot(&oc);
        proof {
            lemma_fx_mul_bound(b as int, b as int, 0x1800000000, 0x1800000000);
            lemma_fx_mul_bound(self.r as int, self.r as int, CMAX as int, CMAX as int);
            assert(fx_mul_spec(self.r as int, self.r as int) >= 0) by {
                assert((self.r as int) * (self.r as int) >= 0) by (nonlinear_arith);
                vstd::arithmetic::div_mod::lemma_div_pos_is_pos(
                    (self.r as int) * (self.r as int),
                    ONE as int,
                );
            }
        }
        let b2 = fx_mul(b, b);
        let oc2 = oc.dot(&oc);
        let r2 = fx_mul(self.r, self.r);
        let disc = b2 - (oc2 - r2);
        if disc < 0 {
            None
        } else if disc == 0 {
            let dist = -b;
            let p = self.line_point(line, dist);
            let mut v: Vec<(Coordinates3D, i64)> = Vec::new();
            v.push((p, dist));
            Some(v)
        } else {
            let sq = fx_sqrt(disc);
            let dist1 = -b + sq;
            let dist2 = -b - sq;
            let p1 = self.line_point(line, dist1);
            let p2 = self.line_point(line, dist2);
            let mut v: Vec<(Coordinates3D, i64)> = Vec::new();
            v.push((p1, dist1));
            v.push((p2, dist2));
            Some(v)
        }
    }

    /// The point `dist` along a line.
    fn line_point(&self, line: &Line, dist: i64) -> (p: Coordinates3D)
        requires
            bounded3(line@.origin, OMAX as int),
            bounded3(line@.unit_vec, UNIT_MAX as int),
            -0x40000000000 <= dist <= 0x40000000000,
        ensures
            p@ == line_point_spec(line@, dist as int),
    {
        proof {
            lemma_fx_mul_bound(line@.unit_vec.x, dist as int, UNIT_MAX as int, 0x40000000000);
            lemma_fx_mul_bound(line@.unit_vec.y, dist as int, UNIT_MAX as int, 0x40000000000);
            lemma_fx_mul_bound(line@.unit_vec.z, dist as int, UNIT_MAX as int, 0x40000000000);
        }
        let step = line.unit_vec.mul(dist);
        line.origin.add(&step)
    }
}

/// The unit vector from one point toward another, or nothing when the two
/// points are too close to carry a direction.
pub fn calcul_line_vec(origin: &Coordinates3D, point: &Coordinates3D) -> (r: Option<Coordinates3D>)
    requires
        bounded3(origin@, OMAX as int),
        bounded3(point@, OMAX as int),
    ensures
        (r is Some) == (normalize_spec(vsub(point@, origin@)) is Some),
        r matches Some(u) ==> Some(u@) == normalize_spec(vsub(point@, origin@)),
{
    let d = point.sub(origin);
    d.normalize()
}

} // verus!
