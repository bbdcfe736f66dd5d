//! The record a shape query returns for a hit: where the ray struck, a
//! slightly offset copy of that point for secondary rays, the distance along
//! the ray, and the surface normal facing the incoming ray.

use vstd::prelude::*;
use crate::coordinates::{
    bounded3, vadd, vscale, Coordinates3D, Vec3i, CMAX, LOC_MAX, UNIT_MAX,
};
use crate::fixed::{lemma_fx_mul_bound};

verus! {

/// Offset applied along the normal to push secondary rays off the surface and
/// avoid false self-intersection: about 0.001 in fixed point.
pub const BIAS: i64 = 66;

/// The mathematical value of an `Intersection`.
pub ghost struct IntersectionV {
    pub location: Vec3i,
    pub biased_location: Vec3i,
    pub distance: int,
    pub normal: Vec3i,
}

#[derive(Clone, Copy, Debug)]
pub struct Intersection {
    pub location: Coordinates3D,
    pub biased_location: Coordinates3D,
    pub distance: i64,
    pub normal: Coordinates3D,
}

impl View for Intersection {
    type V = IntersectionV;

    open spec fn view(&self) -> IntersectionV {
        IntersectionV {
            location: self.location@,
            biased_location: self.biased_location@,
            distance: self.distance as int,
            normal: self.normal@,
        }
    }
}

/// The record built from a hit location, its distance and its normal; the
/// biased location is derived, never chosen.
pub open spec fn intersection_spec(loc: Vec3i, dist: int, n: Vec3i) -> IntersectionV {
    IntersectionV {
        location: loc,
        biased_location: vadd(loc, vscale(n, BIAS as int)),
        distance: dist,
        normal: n,
    }
}

/// Well-formedness: the biased location stays a valid ray origin.
pub open spec fn intersection_wf(i: IntersectionV) -> bool {
    &&& bounded3(i.location, LOC_MAX as int)
    &&& bounded3(i.biased_location, CMAX as int)
    &&& i.distance >= 0
    &&& bounded3(i.normal, UNIT_MAX as int)
}

impl Intersection {
    pub fn new(location: Coordinates3D, distance: i64, normal: Coordinates3D) -> (r: Intersection)
        requires
            bounded3(location@, LOC_MAX as int),
            bounded3(normal@, UNIT_MAX as int),
            distance >= 0,
        ensures
            r@ == intersection_spec(location@, distance as int, normal@),
            intersection_wf(r@),
    {
        proof {
            lemma_fx_mul_bound(normal@.x, BIAS as int, UNIT_MAX as int, BIAS as int);
            lemma_fx_mul_bound(normal@.y, BIAS as int, UNIT_MAX as int, BIAS as int);
            lemma_fx_mul_bound(normal@.z, BIAS as int, UNIT_MAX as int, BIAS as int);
        }
        let offset = normal.mul(BIAS);
        let biased_location = location.add(&offset);
        Intersection { location, biased_location, distance, normal }
    }
}

} // verus!
