//! Directed rays with precomputed per-component inverse and sign, the form
//! consumed by the slab test for axis-aligned boxes.

use vstd::prelude::*;
use crate::coordinates::{
    bounded3, normalize_spec, vsub, Coordinates3D, Vec3i, DELTA_MAX, INV_MAX, OMAX, UNIT_MAX,
};
use crate::fixed::{fx_div, fx_div_spec, lemma_fx_div_bound, ONE};

verus! {

/// The mathematical value of a `Ray`.
pub ghost struct RayV {
    pub origin: Vec3i,
    pub unit_vec: Vec3i,
    pub inverse: Vec3i,
    /// 1 where the inverse component is negative, else 0.
    pub sign: Vec3i,
}

pub struct Ray {
    pub origin: Coordinates3D,
    pub unit_vec: Coordinates3D,
    pub inverse: Coordinates3D,
    pub sign: [usize; 3],
}

impl View for Ray {
    type V = RayV;

    open spec fn view(&self) -> RayV {
        RayV {
            origin: self.origin@,
            unit_vec: self.unit_vec@,
            inverse: self.inverse@,
            sign: Vec3i {
                x: self.sign[0] as int,
                y: self.sign[1] as int,
                z: self.sign[2] as int,
            },
        }
    }
}

/// Well-formedness of a ray: every later overflow argument rests on these
/// bounds, established by the constructors.
pub open spec fn ray_wf(r: RayV) -> bool {
    &&& bounded3(r.origin, OMAX as int)
    &&& bounded3(r.unit_vec, UNIT_MAX as int)
    &&& bounded3(r.inverse, INV_MAX as int)
    &&& (r.sign.x == 0 || r.sign.x == 1)
    &&& (r.sign.y == 0 || r.sign.y == 1)
    &&& (r.sign.z == 0 || r.sign.z == 1)
}

/// Inverse of one direction component; a zero component has no finite
/// reciprocal and is marked by 0, which the slab test never consumes.
pub open spec fn inv_comp_spec(u: int) -> int {
    if u == 0 { 0 } else { fx_div_spec(ONE as int, u) }
}

pub open spec fn sign_comp_spec(inv: int) -> int {
    if inv < 0 { 1 } else { 0 }
}

/// The ray built from an origin and an unnormalized direction, or nothing if
/// the direction is degenerate.
pub open spec fn ray_spec(o: Vec3i, d: Vec3i) -> Option<RayV> {
    match normalize_spec(d) {
        None => None,
        Some(u) => {
            let inv = Vec3i {
                x: inv_comp_spec(u.x),
                y: inv_comp_spec(u.y),
                z: inv_comp_spec(u.z),
            };
            Some(RayV {
                origin: o,
                unit_vec: u,
                inverse: inv,
                sign: Vec3i {
                    x: sign_comp_spec(inv.x),
                    y: sign_comp_spec(inv.y),
                    z: sign_comp_spec(inv.z),
                },
            })
        },
    }
}

/// The ray through two points: direction `other - origin`, normalized.
pub open spec fn ray_from_points_spec(o: Vec3i, p: Vec3i) -> Option<RayV> {
    ray_spec(o, vsub(p, o))
}

impl Ray {
    /// Build a ray from an origin and any direction vector; the direction is
    /// normalized regardless of its magnitude.
    pub fn new_from_origine_and_direction(origin: &Coordinates3D, direction: &Coordinates3D) -> (r:
        Option<Ray>)
        requires
            bounded3(origin@, OMAX as int),
            bounded3(direction@, DELTA_MAX as int),
        ensures
            (r is Some) == (ray_spec(origin@, direction@) is Some),
            r matches Some(ray) ==> Some(ray@) == ray_spec(origin@, direction@) && ray_wf(ray@),
    {
        let u = match direction.normalize() {
            None => {
                return None;
            },
            Some(u) => u,
        };
        let ix = if u.x != 0 {
            proof {
                lemma_fx_div_bound(ONE as int, u@.x, ONE as int);
            }
            fx_div(ONE, u.x)
        } else {
            0
        };
        let iy = if u.y != 0 {
            proof {
                lemma_fx_div_bound(ONE as int, u@.y, ONE as int);
            }
            fx_div(ONE, u.y)
        } else {
            0
        };
        let iz = if u.z != 0 {
            proof {
                lemma_fx_div_bound(ONE as int, u@.z, ONE as int);
            }
            fx_div(ONE, u.z)
        } else {
            0
        };
        let sign: [usize; 3] = [
            if ix < 0 { 1 } else { 0 },
            if iy < 0 { 1 } else { 0 },
            if iz < 0 { 1 } else { 0 },
        ];
        Some(Ray {
            origin: *origin,
            unit_vec: u,
            inverse: Coordinates3D { x: ix, y: iy, z: iz },
            sign,
        })
    }

    /// Build the ray from one point through another; nothing when the two
    /// points are too close to carry a direction.
    pub fn new_from_points(origin: &Coordinates3D, other: &Coordinates3D) -> (r: Option<Ray>)
        requires
            bounded3(origin@, OMAX as int),
            bounded3(other@, OMAX as int),
        ensures
            (r is Some) == (ray_from_points_spec(origin@, other@) is Some),
            r matches Some(ray) ==> Some(ray@) == ray_from_points_spec(origin@, other@)
                && ray_wf(ray@),
    {
        let d = other.sub(origin);
        Self::new_from_origine_and_direction(origin, &d)
    }
}

} // verus!
