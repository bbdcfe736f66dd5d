//! The scene's shapes — sphere, plane, axis-aligned cuboid — as a closed sum
//! type, each with its intersection routine and material accessors.

use vstd::prelude::*;
use crate::coordinates::{
    bounded3, normalize_spec, vadd, vdot, vneg, vscale, vsub, vzero, Coordinates3D, Vec3i, CMAX,
    LOC_MAX, UNIT_MAX,
    lemma_vdot_bound, lemma_vdot_neg, lemma_vdot_self_nonneg,
};
use crate::fixed::{
    fx_div, fx_div_spec, lemma_fx_div_bound,
    fx_mul, fx_mul_spec, fx_sqrt, fx_sqrt_spec, iabs, lemma_fx_mul_bound,
    lemma_isqrt_unique, lemma_tdiv_mul_exact, ONE,
};
use crate::intersection::{intersection_spec, intersection_wf, Intersection, IntersectionV};
use crate::ray::{ray_wf, Ray, RayV};

verus! {

/// A colour whose channels lie in [0, 1].
pub open spec fn color01(c: Vec3i) -> bool {
    0 <= c.x <= ONE && 0 <= c.y <= ONE && 0 <= c.z <= ONE
}

/// A material coefficient in [0, 1].
pub open spec fn coeff01(a: int) -> bool {
    0 <= a <= ONE
}

pub struct Sphere {
    pub centre: Coordinates3D,
    pub r: i64,
    pub color: Coordinates3D,
    pub emissive_color: Coordinates3D,
    pub albedo: i64,
    pub reflectivity: i64,
}

pub open spec fn sphere_wf(s: Sphere) -> bool {
    &&& bounded3(s.centre@, CMAX as int)
    &&& 0 <= s.r <= CMAX
    &&& color01(s.color@)
    &&& color01(s.emissive_color@)
    &&& coeff01(s.albedo as int)
    &&& coeff01(s.reflectivity as int)
}

/// The hit record for a given location and distance along the ray, with the
/// normal pointing from `centre` to the location; nothing when the location
/// leaves the world bounds or sits too close to the centre to orient.
pub open spec fn oriented_hit_spec(ray: RayV, dist: int, centre: Vec3i) -> Option<IntersectionV> {
    let loc = vadd(ray.origin, vscale(ray.unit_vec, dist));
    if !bounded3(loc, LOC_MAX as int) {
        None
    } else {
        match normalize_spec(vsub(loc, centre)) {
            None => None,
            Some(n) => Some(intersection_spec(loc, dist, n)),
        }
    }
}

/// Sphere intersection: the quadratic solved for the nearest root at or ahead
/// of the ray origin. A tangent ray (discriminant exactly zero) reports no
/// hit: grazing contact does not count as an intersection.
pub open spec fn sphere_hit_spec(s: Sphere, ray: RayV) -> Option<IntersectionV> {
    let oc = vsub(ray.origin, s.centre@);
    let b = vdot(ray.unit_vec, oc);
    let disc = fx_mul_spec(b, b) - (vdot(oc, oc) - fx_mul_spec(s.r as int, s.r as int));
    if disc <= 0 {
        None
    } else {
        let sq = fx_sqrt_spec(disc);
        let dist1 = -b + sq;
        let dist2 = -b - sq;
        if dist1 >= 0 && (dist2 < 0 || dist2 > dist1) {
            oriented_hit_spec(ray, dist1, s.centre@)
        } else if dist2 >= 0 {
            oriented_hit_spec(ray, dist2, s.centre@)
        } else {
            None
        }
    }
}

impl Sphere {
    pub fn new(
        centre: Coordinates3D,
        r: i64,
        color: Coordinates3D,
        emissive_color: Coordinates3D,
        albedo: i64,
        reflectivity: i64,
    ) -> (s: Sphere)
        ensures
            s == (Sphere { centre, r, color, emissive_color, albedo, reflectivity }),
    {
        Sphere { centre, r, color, emissive_color, albedo, reflectivity }
    }

    /// The nearest intersection of the ray with this sphere, at or ahead of
    /// the ray origin.
    pub fn ray_closest_intersections(&self, ray: &Ray) -> (res: Option<Intersection>)
        requires
            sphere_wf(*self),
            ray_wf(ray@),
        ensures
            (res is Some) == (sphere_hit_spec(*self, ray@) is Some),
            res matches Some(i) ==> Some(i@) == sphere_hit_spec(*self, ray@)
                && intersection_wf(i@),
    {
        let oc = ray.origin.sub(&self.centre);
        proof {
            lemma_vdot_bound(ray@.unit_vec, oc@, UNIT_MAX as int, 0x400000000);
            lemma_vdot_bound(oc@, oc@, 0x400000000, 0x400000000);
            lemma_vdot_self_nonneg(oc@);
        }
        let b = ray.unit_vec.dot(&oc);
        proof {
            lemma_fx_mul_bound(b as int, b as int, 0x1800000000, 0x1800000000);
            lemma_fx_mul_bound(self.r as int, self.r as int, CMAX as int, CMAX as int);
            assert(fx_mul_spec(self.r as int, self.r as int) >= 0) by {
                assert((self.r as int) * (self.r as int) >= 0) by (nonlinear_arith);
                vstd::arithmetic::div_mod::lemma_div_pos_is_pos(
                    (self.r as int) * (self.r as int),
                    ONE as int,
                );
            }
        }
        let b2 = fx_mul(b, b);
        let oc2 = oc.dot(&oc);
        let r2 = fx_mul(self.r, self.r);
        let disc = b2 - (oc2 - r2);
        if disc <= 0 {
            return None;
        }
        let sq = fx_sqrt(disc);
        let dist1 = -b + sq;
        let dist2 = -b - sq;
        if dist1 >= 0 && (dist2 < 0 || dist2 > dist1) {
            self.oriented_hit(ray, dist1)
        } else if dist2 >= 0 {
            self.oriented_hit(ray, dist2)
        } else {
            None
        }
    }

    /// Build the hit record at `dist` along the ray, normal oriented away
    /// from the centre.
    fn oriented_hit(&self, ray: &Ray, dist: i64) -> (res: Option<Intersection>)
        requires
            sphere_wf(*self),
            ray_wf(ray@),
            0 <= dist < 0x40000000000,
        ensures
            (res is Some) == (oriented_hit_spec(ray@, dist as int, self.centre@) is Some),
            res matches Some(i) ==> Some(i@) == oriented_hit_spec(ray@, dist as int, self.centre@)
                && intersection_wf(i@),
    {
        proof {
            lemma_fx_mul_bound(ray@.unit_vec.x, dist as int, UNIT_MAX as int, 0x40000000000);
            lemma_fx_mul_bound(ray@.unit_vec.y, dist as int, UNIT_MAX as int, 0x40000000000);
            lemma_fx_mul_bound(ray@.unit_vec.z, dist as int, UNIT_MAX as int, 0x40000000000);
        }
        let step = ray.unit_vec.mul(dist);
        let location = ray.origin.add(&step);
        if location.x > LOC_MAX || location.x < -LOC_MAX || location.y > LOC_MAX || location.y
            < -LOC_MAX || location.z > LOC_MAX || location.z < -LOC_MAX {
            return None;
        }
        let d = location.sub(&self.centre);
        match d.normalize() {
            None => None,
            Some(normal) => Some(Intersection::new(location, dist, normal)),
        }
    }
}

/// A ray fired from outside a sphere straight at its centre hits it, at the
/// distance from the origin to the centre minus the radius, and the normal
/// at the hit points from the centre back toward the ray origin. Stated for
/// rays along the first axis and geometry aligned to the fixed-point grid,
/// where the arithmetic is exact.
pub proof fn lemma_sphere_head_on(s: Sphere, ray: RayV, d: int)
    requires
        ray.unit_vec == (Vec3i { x: ONE as int, y: 0, z: 0 }),
        s.centre@.x == ray.origin.x + d,
        s.centre@.y == ray.origin.y,
        s.centre@.z == ray.origin.z,
        d % 256 == 0,
        (s.r as int) % 256 == 0,
        0 < s.r < d,
        iabs(ray.origin.x) + d <= LOC_MAX,
        iabs(ray.origin.y) <= LOC_MAX,
        iabs(ray.origin.z) <= LOC_MAX,
    ensures
        sphere_hit_spec(s, ray) matches Some(hit) && hit.distance == crate::coordinates::vdist(
            ray.origin,
            s.centre@,
        ) - s.r && hit.distance == d - s.r && hit.normal == (Vec3i {
            x: -(ONE as int),
            y: 0,
            z: 0,
        }),
{
    let o = ray.origin;
    let c = s.centre@;
    let r = s.r as int;
    let kd = d / 256;
    let kr = r / 256;
    vstd::arithmetic::div_mod::lemma_fundamental_div_mod(d, 256);
    vstd::arithmetic::div_mod::lemma_fundamental_div_mod(r, 256);
    assert(d == 256 * kd && r == 256 * kr);
    assert(kr >= 1 && kd >= 1);
    let oc = vsub(o, c);
    assert(oc == (Vec3i { x: -d, y: 0, z: 0 }));
    assert((ONE as int) * oc.x + 0 * oc.y + 0 * oc.z == oc.x * 65536);
    lemma_tdiv_mul_exact(oc.x, 65536);
    let bq = vdot(ray.unit_vec, oc);
    assert(bq == -d);
    assert((-d) * (-d) == (kd * kd) * 65536 && oc.x * oc.x + oc.y * oc.y + oc.z * oc.z == (kd * kd)
        * 65536) by (nonlinear_arith)
        requires d == 256 * kd, oc == (Vec3i { x: -d, y: 0, z: 0 }),
    ;
    lemma_tdiv_mul_exact(kd * kd, 65536);
    assert(fx_mul_spec(bq, bq) == kd * kd);
    assert(vdot(oc, oc) == kd * kd);
    assert(r * r == (kr * kr) * 65536) by (nonlinear_arith)
        requires r == 256 * kr,
    ;
    lemma_tdiv_mul_exact(kr * kr, 65536);
    assert(fx_mul_spec(r, r) == kr * kr);
    let disc = fx_mul_spec(bq, bq) - (vdot(oc, oc) - fx_mul_spec(r, r));
    assert(disc == kr * kr);
    assert(kr * kr >= 1) by (nonlinear_arith)
        requires kr >= 1,
    ;
    assert((kr * kr) * ONE == r * r) by (nonlinear_arith)
        requires r == 256 * kr,
    ;
    assert(r * r < (r + 1) * (r + 1)) by (nonlinear_arith)
        requires r >= 0,
    ;
    lemma_isqrt_unique(r * r, r);
    let sq = fx_sqrt_spec(disc);
    assert(sq == r);
    let dist2 = -bq - sq;
    assert(dist2 == d - r);
    // the smaller root is taken: d - r >= 0 and d - r <= d + r
    assert(sphere_hit_spec(s, ray) == oriented_hit_spec(ray, d - r, c));
    // the hit location and its normal
    assert((ONE as int) * (d - r) == (d - r) * 65536);
    lemma_tdiv_mul_exact(d - r, 65536);
    assert(fx_mul_spec(ONE as int, d - r) == d - r);
    assert(0 * (d - r) == 0);
    assert(fx_mul_spec(0, d - r) == 0) by {
        assert(iabs(0) / 65536 == 0);
    }
    let loc = vadd(ray.origin, vscale(ray.unit_vec, d - r));
    assert(loc == (Vec3i { x: o.x + d - r, y: o.y, z: o.z }));
    assert(bounded3(loc, LOC_MAX as int));
    let dn = vsub(loc, c);
    assert(dn == (Vec3i { x: -r, y: 0, z: 0 }));
    assert(dn.x * dn.x + dn.y * dn.y + dn.z * dn.z == (kr * kr) * 65536) by (nonlinear_arith)
        requires r == 256 * kr, dn == (Vec3i { x: -r, y: 0, z: 0 }),
    ;
    assert(vdot(dn, dn) == kr * kr);
    assert(fx_sqrt_spec(kr * kr) == r);
    assert((-r) * 65536 == (-(ONE as int)) * r) by (nonlinear_arith);
    lemma_tdiv_mul_exact(-(ONE as int), r);
    assert(fx_div_spec(-r, r) == -(ONE as int));
    assert(fx_div_spec(0, r) == 0) by {
        assert(0 * ONE == 0);
        assert(iabs(0) / iabs(r) == 0) by {
            vstd::arithmetic::div_mod::lemma_basic_div(0, iabs(r));
        }
    }
    assert(normalize_spec(dn) == Some(Vec3i { x: -(ONE as int), y: 0, z: 0 }));
    // the distance to the centre is exactly d
    assert((kd * kd) * ONE == d * d) by (nonlinear_arith)
        requires d == 256 * kd,
    ;
    assert(d * d < (d + 1) * (d + 1)) by (nonlinear_arith)
        requires d >= 0,
    ;
    lemma_isqrt_unique(d * d, d);
    assert(crate::coordinates::vdist(o, c) == d);
}

/// A ray running perpendicular to the line from its origin to a sphere's
/// centre, offset farther than the radius, misses the sphere. Stated for
/// rays along the first axis, the centre offset along the second, on the
/// fixed-point grid.
pub proof fn lemma_sphere_perpendicular_miss(s: Sphere, ray: RayV, h: int)
    requires
        ray.unit_vec == (Vec3i { x: ONE as int, y: 0, z: 0 }),
        s.centre@.x == ray.origin.x,
        s.centre@.y == ray.origin.y + h,
        s.centre@.z == ray.origin.z,
        h % 256 == 0,
        (s.r as int) % 256 == 0,
        s.r >= 0,
        iabs(h) > s.r,
    ensures
        sphere_hit_spec(s, ray) is None,
{
    let o = ray.origin;
    let c = s.centre@;
    let r = s.r as int;
    let kh = h / 256;
    let kr = r / 256;
    vstd::arithmetic::div_mod::lemma_fundamental_div_mod(h, 256);
    vstd::arithmetic::div_mod::lemma_fundamental_div_mod(r, 256);
    assert(h == 256 * kh && r == 256 * kr);
    let oc = vsub(o, c);
    assert(oc == (Vec3i { x: 0, y: -h, z: 0 }));
    assert((ONE as int) * oc.x + 0 * oc.y + 0 * oc.z == 0);
    assert(vdot(ray.unit_vec, oc) == 0) by {
        assert(iabs(0) / 65536 == 0);
    }
    assert(fx_mul_spec(0, 0) == 0) by {
        assert(0 * 0 == 0);
        assert(iabs(0) / 65536 == 0);
    }
    assert(oc.x * oc.x + oc.y * oc.y + oc.z * oc.z == (kh * kh) * 65536) by (nonlinear_arith)
        requires h == 256 * kh, oc == (Vec3i { x: 0, y: -h, z: 0 }),
    ;
    lemma_tdiv_mul_exact(kh * kh, 65536);
    assert(vdot(oc, oc) == kh * kh);
    assert(r * r == (kr * kr) * 65536) by (nonlinear_arith)
        requires r == 256 * kr,
    ;
    lemma_tdiv_mul_exact(kr * kr, 65536);
    assert(fx_mul_spec(r, r) == kr * kr);
    assert(kr < iabs(kh));
    assert(kr * kr < kh * kh) by (nonlinear_arith)
        requires 0 <= kr, kr < iabs(kh),
    ;
    assert(fx_mul_spec(0, 0) - (vdot(oc, oc) - fx_mul_spec(r, r)) < 0);
}

/// A ray pointed directly away from a sphere reports no intersection even
/// though its infinite line crosses the sphere. Stated for rays along the
/// first axis, the centre behind the origin, on the fixed-point grid.
pub proof fn lemma_sphere_behind_miss(s: Sphere, ray: RayV, d: int)
    requires
        ray.unit_vec == (Vec3i { x: ONE as int, y: 0, z: 0 }),
        s.centre@.x == ray.origin.x - d,
        s.centre@.y == ray.origin.y,
        s.centre@.z == ray.origin.z,
        d % 256 == 0,
        (s.r as int) % 256 == 0,
        0 <= s.r < d,
    ensures
        sphere_hit_spec(s, ray) is None,
{
    let o = ray.origin;
    let c = s.centre@;
    let r = s.r as int;
    let kd = d / 256;
    let kr = r / 256;
    vstd::arithmetic::div_mod::lemma_fundamental_div_mod(d, 256);
    vstd::arithmetic::div_mod::lemma_fundamental_div_mod(r, 256);
    assert(d == 256 * kd && r == 256 * kr);
    let oc = vsub(o, c);
    assert(oc == (Vec3i { x: d, y: 0, z: 0 }));
    assert((ONE as int) * oc.x + 0 * oc.y + 0 * oc.z == oc.x * 65536);
    lemma_tdiv_mul_exact(oc.x, 65536);
    let bq = vdot(ray.unit_vec, oc);
    assert(bq == d);
    assert(d * d == (kd * kd) * 65536 && oc.x * oc.x + oc.y * oc.y + oc.z * oc.z == (kd * kd)
        * 65536) by (nonlinear_arith)
        requires d == 256 * kd, oc == (Vec3i { x: d, y: 0, z: 0 }),
    ;
    lemma_tdiv_mul_exact(kd * kd, 65536);
    assert(fx_mul_spec(bq, bq) == kd * kd);
    assert(vdot(oc, oc) == kd * kd);
    assert(r * r == (kr * kr) * 65536) by (nonlinear_arith)
        requires r == 256 * kr,
    ;
    lemma_tdiv_mul_exact(kr * kr, 65536);
    assert(fx_mul_spec(r, r) == kr * kr);
    let disc = fx_mul_spec(bq, bq) - (vdot(oc, oc) - fx_mul_spec(r, r));
    assert(disc == kr * kr);
    if r == 0 {
        assert(kr == 0);
        assert(disc == 0) by (nonlinear_arith)
            requires disc == kr * kr, kr == 0,
        ;
    } else {
        assert(kr >= 1);
        assert(kr * kr >= 1) by (nonlinear_arith)
            requires kr >= 1,
        ;
        assert((kr * kr) * ONE == r * r) by (nonlinear_arith)
            requires r == 256 * kr,
        ;
        assert(r * r < (r + 1) * (r + 1)) by (nonlinear_arith)
            requires r >= 0,
        ;
        lemma_isqrt_unique(r * r, r);
        let sq = fx_sqrt_spec(disc);
        assert(sq == r);
        assert(-bq + sq == r - d && r - d < 0);
        assert(-bq - sq == -d - r && -d - r < 0);
    }
}

pub struct Plane {
    pub origin: Coordinates3D,
    pub normal_vec: Coordinates3D,
    pub color: Coordinates3D,
    pub albedo: i64,
}

pub open spec fn plane_wf(p: Plane) -> bool {
    &&& bounded3(p.origin@, CMAX as int)
    &&& bounded3(p.normal_vec@, UNIT_MAX as int)
    &&& color01(p.color@)
    &&& coeff01(p.albedo as int)
}

/// Plane intersection: a ray parallel to the plane misses; otherwise the hit
/// lies at the signed ray parameter, kept only when at or ahead of the
/// origin. The reported normal is the plane normal flipped, if needed, to
/// face the incoming ray.
pub open spec fn plane_hit_spec(p: Plane, ray: RayV) -> Option<IntersectionV> {
    let denom = vdot(ray.unit_vec, p.normal_vec@);
    if denom == 0 {
        None
    } else {
        let num = vdot(vsub(p.origin@, ray.origin), p.normal_vec@);
        let dist = fx_div_spec(num, denom);
        if dist < 0 {
            None
        } else {
            let loc = vadd(ray.origin, vscale(ray.unit_vec, dist));
            if !bounded3(loc, LOC_MAX as int) {
                None
            } else {
                let n = if denom < 0 { p.normal_vec@ } else { vneg(p.normal_vec@) };
                Some(intersection_spec(loc, dist, n))
            }
        }
    }
}

impl Plane {
    pub fn new(origin: Coordinates3D, normal_vec: Coordinates3D, color: Coordinates3D, albedo: i64)
        -> (p: Plane)
        ensures
            p == (Plane { origin, normal_vec, color, albedo }),
    {
        Plane { origin, normal_vec, color, albedo }
    }

    /// The intersection of the ray with this plane, at or ahead of the ray
    /// origin; the returned normal always faces the incoming ray.
    pub fn ray_closest_intersections(&self, ray: &Ray) -> (res: Option<Intersection>)
        requires
            plane_wf(*self),
            ray_wf(ray@),
        ensures
            (res is Some) == (plane_hit_spec(*self, ray@) is Some),
            res matches Some(i) ==> Some(i@) == plane_hit_spec(*self, ray@)
                && intersection_wf(i@),
            res matches Some(i) ==> vdot(ray@.unit_vec, i@.normal) < 0,
    {
        proof {
            lemma_vdot_bound(ray@.unit_vec, self.normal_vec@, UNIT_MAX as int, UNIT_MAX as int);
        }
        let denom = ray.unit_vec.dot(&self.normal_vec);
        if denom == 0 {
            return None;
        }
        let po_ro = self.origin.sub(&ray.origin);
        proof {
            lemma_vdot_bound(po_ro@, self.normal_vec@, 0x400000000, UNIT_MAX as int);
        }
        let num = po_ro.dot(&self.normal_vec);
        proof {
            lemma_fx_div_bound(num as int, denom as int, 0x1800000000);
        }
        let distance = fx_div(num, denom);
        if distance < 0 {
            return None;
        }
        proof {
            lemma_fx_mul_bound(ray@.unit_vec.x, distance as int, UNIT_MAX as int, 0x18000000000000);
            lemma_fx_mul_bound(ray@.unit_vec.y, distance as int, UNIT_MAX as int, 0x18000000000000);
            lemma_fx_mul_bound(ray@.unit_vec.z, distance as int, UNIT_MAX as int, 0x18000000000000);
        }
        let step = ray.unit_vec.mul(distance);
        let location = ray.origin.add(&step);
        if location.x > LOC_MAX || location.x < -LOC_MAX || location.y > LOC_MAX || location.y
            < -LOC_MAX || location.z > LOC_MAX || location.z < -LOC_MAX {
            return None;
        }
        let normal = if denom < 0 {
            self.normal_vec
        } else {
            proof {
                lemma_vdot_neg(ray@.unit_vec, self.normal_vec@);
            }
            self.normal_vec.neg()
        };
        Some(Intersection::new(location, distance, normal))
    }
}

pub struct Cuboid {
    pub position: Coordinates3D,
    /// `bounds[0]` is the low corner, `bounds[1]` the high corner, both
    /// relative to `position`.
    pub bounds: [Coordinates3D; 2],
    pub color: Coordinates3D,
    pub emissive_color: Coordinates3D,
    pub albedo: i64,
    pub reflectivity: i64,
}

pub open spec fn cuboid_wf(c: Cuboid) -> bool {
    &&& bounded3(c.position@, CMAX as int)
    &&& bounded3(c.bounds[0]@, CMAX as int)
    &&& bounded3(c.bounds[1]@, CMAX as int)
    &&& color01(c.color@)
    &&& color01(c.emissive_color@)
    &&& coeff01(c.albedo as int)
    &&& coeff01(c.reflectivity as int)
}

/// The per-axis slab interval of ray parameters, as entry and exit values.
/// An axis the ray runs parallel to constrains nothing when the origin lies
/// between the two slab planes (the interval is unbounded, marked by the
/// extreme sentinels no finite parameter reaches) and everything otherwise.
/// For the other axes the near and far planes are picked by the precomputed
/// sign, so entry <= exit whenever the corner order holds.
pub open spec fn slab_axis_spec(u: int, inv: int, o: int, b0: int, b1: int, sgn: int) -> Option<
    (int, int),
> {
    if u == 0 {
        if b0 <= o && o <= b1 {
            Some((i64::MIN as int, i64::MAX as int))
        } else {
            None
        }
    } else {
        let near = if sgn == 1 { b1 } else { b0 };
        let far = if sgn == 1 { b0 } else { b1 };
        Some((fx_mul_spec(near - o, inv), fx_mul_spec(far - o, inv)))
    }
}

pub open spec fn imax(a: int, b: int) -> int {
    if a > b { a } else { b }
}

pub open spec fn imin(a: int, b: int) -> int {
    if a < b { a } else { b }
}

/// The face normal at a point on the cuboid: a unit vector along the axis of
/// the largest offset from the centre (the earliest such axis on ties),
/// signed like that offset.
pub open spec fn cuboid_normal_spec(nl: Vec3i) -> Vec3i {
    if iabs(nl.y) > iabs(nl.x) {
        if iabs(nl.z) > iabs(nl.y) {
            Vec3i { x: 0, y: 0, z: if nl.z >= 0 { ONE as int } else { -(ONE as int) } }
        } else {
            Vec3i { x: 0, y: if nl.y >= 0 { ONE as int } else { -(ONE as int) }, z: 0 }
        }
    } else {
        if iabs(nl.z) > iabs(nl.x) {
            Vec3i { x: 0, y: 0, z: if nl.z >= 0 { ONE as int } else { -(ONE as int) } }
        } else {
            Vec3i { x: if nl.x >= 0 { ONE as int } else { -(ONE as int) }, y: 0, z: 0 }
        }
    }
}

/// Cuboid intersection by the slab method: intersect the three per-axis
/// parameter intervals; the hit lies at the overall entry parameter when the
/// intervals meet at or ahead of the ray origin.
pub open spec fn cuboid_hit_spec(c: Cuboid, ray: RayV) -> Option<IntersectionV> {
    let o = vsub(ray.origin, c.position@);
    match slab_axis_spec(
        ray.unit_vec.x, ray.inverse.x, o.x, c.bounds[0]@.x, c.bounds[1]@.x, ray.sign.x,
    ) {
        None => None,
        Some((txmin, txmax)) => match slab_axis_spec(
            ray.unit_vec.y, ray.inverse.y, o.y, c.bounds[0]@.y, c.bounds[1]@.y, ray.sign.y,
        ) {
            None => None,
            Some((tymin, tymax)) => if txmin > tymax || tymin > txmax {
                None
            } else {
                let txymin = imax(txmin, tymin);
                let txymax = imin(txmax, tymax);
                match slab_axis_spec(
                    ray.unit_vec.z, ray.inverse.z, o.z, c.bounds[0]@.z, c.bounds[1]@.z, ray.sign.z,
                ) {
                    None => None,
                    Some((tzmin, tzmax)) => if txymin > tzmax || tzmin > txymax {
                        None
                    } else {
                        let tmin = imax(txymin, tzmin);
                        let tmax = imin(txymax, tzmax);
                        if tmin > tmax {
                            None
                        } else if tmin < 0 {
                            None
                        } else {
                            let loc = vadd(ray.origin, vscale(ray.unit_vec, tmin));
                            if !bounded3(loc, LOC_MAX as int) {
                                None
                            } else {
                                let nl = vsub(loc, c.position@);
                                Some(intersection_spec(loc, tmin, cuboid_normal_spec(nl)))
                            }
                        }
                    },
                }
            },
        },
    }
}

/// One axis of the slab test.
fn slab_axis(u: i64, inv: i64, o: i64, b0: i64, b1: i64, sgn: usize) -> (res: Option<(i64, i64)>)
    requires
        iabs(u as int) <= UNIT_MAX as int,
        iabs(inv as int) <= 0x100000000,
        iabs(o as int) <= 0x400000000,
        iabs(b0 as int) <= CMAX as int,
        iabs(b1 as int) <= CMAX as int,
        sgn == 0 || sgn == 1,
    ensures
        (res is Some) == (slab_axis_spec(u as int, inv as int, o as int, b0 as int, b1 as int, sgn as int) is Some),
        res matches Some(t) ==> Some((t.0 as int, t.1 as int)) == slab_axis_spec(
            u as int, inv as int, o as int, b0 as int, b1 as int, sgn as int,
        ),
        res matches Some(t) ==> (t.0 == i64::MIN || iabs(t.0 as int) <= 0x5000000000000) && (t.1
            == i64::MAX || iabs(t.1 as int) <= 0x5000000000000),
{
    if u == 0 {
        if b0 <= o && o <= b1 {
            Some((i64::MIN, i64::MAX))
        } else {
            None
        }
    } else {
        let near = if sgn == 1 { b1 } else { b0 };
        let far = if sgn == 1 { b0 } else { b1 };
        proof {
            lemma_fx_mul_bound(near as int - o as int, inv as int, 0x500000000, 0x100000000);
            lemma_fx_mul_bound(far as int - o as int, inv as int, 0x500000000, 0x100000000);
        }
        Some((fx_mul(near - o, inv), fx_mul(far - o, inv)))
    }
}

impl Cuboid {
    pub fn new(
        position: Coordinates3D,
        bounds: [Coordinates3D; 2],
        color: Coordinates3D,
        emissive_color: Coordinates3D,
        albedo: i64,
        reflectivity: i64,
    ) -> (c: Cuboid)
        ensures
            c == (Cuboid { position, bounds, color, emissive_color, albedo, reflectivity }),
    {
        Cuboid { position, bounds, color, emissive_color, albedo, reflectivity }
    }

    /// The nearest intersection of the ray with this axis-aligned box, at or
    /// ahead of the ray origin, by the slab method over the precomputed
    /// inverse direction and sign.
    pub fn ray_closest_intersections(&self, ray: &Ray) -> (res: Option<Intersection>)
        requires
            cuboid_wf(*self),
            ray_wf(ray@),
        ensures
            (res is Some) == (cuboid_hit_spec(*self, ray@) is Some),
            res matches Some(i) ==> Some(i@) == cuboid_hit_spec(*self, ray@)
                && intersection_wf(i@),
    {
        let o = ray.origin.sub(&self.position);
        let (txmin, txmax) = match slab_axis(
            ray.unit_vec.x, ray.inverse.x, o.x, self.bounds[0].x, self.bounds[1].x, ray.sign[0],
        ) {
            None => {
                return None;
            },
            Some(t) => t,
        };
        let (tymin, tymax) = match slab_axis(
            ray.unit_vec.y, ray.inverse.y, o.y, self.bounds[0].y, self.bounds[1].y, ray.sign[1],
        ) {
            None => {
                return None;
            },
            Some(t) => t,
        };
        if txmin > tymax || tymin > txmax {
            return None;
        }
        let txymin = if txmin > tymin { txmin } else { tymin };
        let txymax = if txmax < tymax { txmax } else { tymax };
        let (tzmin, tzmax) = match slab_axis(
            ray.unit_vec.z, ray.inverse.z, o.z, self.bounds[0].z, self.bounds[1].z, ray.sign[2],
        ) {
            None => {
                return None;
            },
            Some(t) => t,
        };
        if txymin > tzmax || tzmin > txymax {
            return None;
        }
        let tmin = if txymin > tzmin { txymin } else { tzmin };
        let tmax = if txymax < tzmax { txymax } else { tzmax };
        if tmin > tmax {
            return None;
        }
        if tmin < 0 {
            return None;
        }
        proof {
            lemma_fx_mul_bound(ray@.unit_vec.x, tmin as int, UNIT_MAX as int, 0x5000000000000);
            lemma_fx_mul_bound(ray@.unit_vec.y, tmin as int, UNIT_MAX as int, 0x5000000000000);
            lemma_fx_mul_bound(ray@.unit_vec.z, tmin as int, UNIT_MAX as int, 0x5000000000000);
        }
        let step = ray.unit_vec.mul(tmin);
        let location = ray.origin.add(&step);
        if location.x > LOC_MAX || location.x < -LOC_MAX || location.y > LOC_MAX || location.y
            < -LOC_MAX || location.z > LOC_MAX || location.z < -LOC_MAX {
            return None;
        }
        let nl = location.sub(&self.position);
        let ax = if nl.x < 0 { -nl.x } else { nl.x };
        let ay = if nl.y < 0 { -nl.y } else { nl.y };
        let az = if nl.z < 0 { -nl.z } else { nl.z };
        let normal = if ay > ax {
            if az > ay {
                Coordinates3D { x: 0, y: 0, z: if nl.z >= 0 { ONE } else { -ONE } }
            } else {
                Coordinates3D { x: 0, y: if nl.y >= 0 { ONE } else { -ONE }, z: 0 }
            }
        } else {
            if az > ax {
                Coordinates3D { x: 0, y: 0, z: if nl.z >= 0 { ONE } else { -ONE } }
            } else {
                Coordinates3D { x: if nl.x >= 0 { ONE } else { -ONE }, y: 0, z: 0 }
            }
        };
        Some(Intersection::new(location, tmin, normal))
    }
}

/// A ray parallel to a plane never intersects it.
pub proof fn lemma_plane_parallel_misses(p: Plane, ray: RayV)
    requires
        vdot(ray.unit_vec, p.normal_vec@) == 0,
    ensures
        plane_hit_spec(p, ray) is None,
{
}

/// The normal a plane hit reports always faces the incoming ray: their dot
/// product is negative.
pub proof fn lemma_plane_normal_faces_ray(p: Plane, ray: RayV)
    ensures
        plane_hit_spec(p, ray) matches Some(hit) ==> vdot(ray.unit_vec, hit.normal) < 0,
{
    let denom = vdot(ray.unit_vec, p.normal_vec@);
    if denom != 0 && !(denom < 0) {
        lemma_vdot_neg(ray.unit_vec, p.normal_vec@);
    }
}

/// A ray fired along the first axis from outside an axis-aligned cuboid with
/// corners one unit from its position, and aimed at that position, strikes
/// the near face: the distance is the axial gap minus one unit, and the
/// normal is the unit vector back along the axis.
pub proof fn lemma_cuboid_axis_hit(c: Cuboid, ray: RayV, d: int)
    requires
        ray.unit_vec == (Vec3i { x: ONE as int, y: 0, z: 0 }),
        ray.inverse.x == ONE,
        ray.sign.x == 0,
        c.bounds[0]@ == (Vec3i { x: -(ONE as int), y: -(ONE as int), z: -(ONE as int) }),
        c.bounds[1]@ == (Vec3i { x: ONE as int, y: ONE as int, z: ONE as int }),
        c.position@.x == ray.origin.x + d,
        c.position@.y == ray.origin.y,
        c.position@.z == ray.origin.z,
        d > ONE,
        d <= 0x40000000000,
        iabs(ray.origin.x) + d <= LOC_MAX,
        iabs(ray.origin.y) <= LOC_MAX,
        iabs(ray.origin.z) <= LOC_MAX,
    ensures
        cuboid_hit_spec(c, ray) matches Some(hit) && hit.distance == d - ONE && hit.normal == (
        Vec3i { x: -(ONE as int), y: 0, z: 0 }),
{
    let o = vsub(ray.origin, c.position@);
    assert(o == (Vec3i { x: -d, y: 0, z: 0 }));
    // x axis: the near plane at -ONE, the far plane at ONE
    assert((-(ONE as int)) - o.x == d - ONE && (ONE as int) - o.x == d + ONE);
    assert((d - ONE) * ONE == (d - ONE) * 65536);
    lemma_tdiv_mul_exact(d - ONE, 65536);
    lemma_tdiv_mul_exact(d + ONE, 65536);
    assert(fx_mul_spec(d - ONE, ONE as int) == d - ONE);
    assert(fx_mul_spec(d + ONE, ONE as int) == d + ONE);
    let sx = slab_axis_spec(
        ray.unit_vec.x,
        ray.inverse.x,
        o.x,
        c.bounds[0]@.x,
        c.bounds[1]@.x,
        ray.sign.x,
    );
    assert(sx == Some(((d - ONE) as int, (d + ONE) as int)));
    // y and z axes: the ray runs inside the slab
    let sy = slab_axis_spec(
        ray.unit_vec.y,
        ray.inverse.y,
        o.y,
        c.bounds[0]@.y,
        c.bounds[1]@.y,
        ray.sign.y,
    );
    assert(sy == Some((i64::MIN as int, i64::MAX as int)));
    let sz = slab_axis_spec(
        ray.unit_vec.z,
        ray.inverse.z,
        o.z,
        c.bounds[0]@.z,
        c.bounds[1]@.z,
        ray.sign.z,
    );
    assert(sz == Some((i64::MIN as int, i64::MAX as int)));
    // the intervals meet at [d - ONE, d + ONE]
    assert(imax(imax(d - ONE, i64::MIN as int), i64::MIN as int) == d - ONE);
    assert(imin(imin(d + ONE, i64::MAX as int), i64::MAX as int) == d + ONE);
    // the hit location and its face normal
    assert((ONE as int) * (d - ONE) == (d - ONE) * 65536);
    assert(fx_mul_spec(ONE as int, d - ONE) == d - ONE);
    assert(0 * (d - ONE) == 0);
    assert(fx_mul_spec(0, d - ONE) == 0) by {
        assert(iabs(0) / 65536 == 0);
    }
    let loc = vadd(ray.origin, vscale(ray.unit_vec, d - ONE));
    assert(loc == (Vec3i { x: ray.origin.x + d - ONE, y: ray.origin.y, z: ray.origin.z }));
    assert(bounded3(loc, LOC_MAX as int));
    let nl = vsub(loc, c.position@);
    assert(nl == (Vec3i { x: -(ONE as int), y: 0, z: 0 }));
    assert(cuboid_normal_spec(nl) == (Vec3i { x: -(ONE as int), y: 0, z: 0 }));
}

/// The closed set of shapes a scene can hold, dispatched by pattern
/// matching.
pub enum Shape3D {
    Sphere(Sphere),
    Plane(Plane),
    Cuboid(Cuboid),
}

pub open spec fn shape_wf(s: Shape3D) -> bool {
    match s {
        Shape3D::Sphere(sp) => sphere_wf(sp),
        Shape3D::Plane(p) => plane_wf(p),
        Shape3D::Cuboid(c) => cuboid_wf(c),
    }
}

pub open spec fn shape_hit_spec(s: Shape3D, ray: RayV) -> Option<IntersectionV> {
    match s {
        Shape3D::Sphere(sp) => sphere_hit_spec(sp, ray),
        Shape3D::Plane(p) => plane_hit_spec(p, ray),
        Shape3D::Cuboid(c) => cuboid_hit_spec(c, ray),
    }
}

pub open spec fn shape_color_spec(s: Shape3D) -> Vec3i {
    match s {
        Shape3D::Sphere(sp) => sp.color@,
        Shape3D::Plane(p) => p.color@,
        Shape3D::Cuboid(c) => c.color@,
    }
}

/// A plane has no emissive term of its own.
pub open spec fn shape_emissive_spec(s: Shape3D) -> Vec3i {
    match s {
        Shape3D::Sphere(sp) => sp.emissive_color@,
        Shape3D::Plane(p) => vzero(),
        Shape3D::Cuboid(c) => c.emissive_color@,
    }
}

pub open spec fn shape_albedo_spec(s: Shape3D) -> int {
    match s {
        Shape3D::Sphere(sp) => sp.albedo as int,
        Shape3D::Plane(p) => p.albedo as int,
        Shape3D::Cuboid(c) => c.albedo as int,
    }
}

/// A plane is never specular.
pub open spec fn shape_reflectivity_spec(s: Shape3D) -> int {
    match s {
        Shape3D::Sphere(sp) => sp.reflectivity as int,
        Shape3D::Plane(p) => 0,
        Shape3D::Cuboid(c) => c.reflectivity as int,
    }
}

impl Shape3D {
    /// The nearest intersection of the ray with this shape, at or ahead of
    /// the ray origin.
    pub fn ray_closest_intersections(&self, ray: &Ray) -> (res: Option<Intersection>)
        requires
            shape_wf(*self),
            ray_wf(ray@),
        ensures
            (res is Some) == (shape_hit_spec(*self, ray@) is Some),
            res matches Some(i) ==> Some(i@) == shape_hit_spec(*self, ray@)
                && intersection_wf(i@),
    {
        match self {
            Shape3D::Sphere(sp) => sp.ray_closest_intersections(ray),
            Shape3D::Plane(p) => p.ray_closest_intersections(ray),
            Shape3D::Cuboid(c) => c.ray_closest_intersections(ray),
        }
    }

    pub fn get_color(&self) -> (c: Coordinates3D)
        requires
            shape_wf(*self),
        ensures
            c@ == shape_color_spec(*self),
            color01(c@),
    {
        match self {
            Shape3D::Sphere(sp) => sp.color,
            Shape3D::Plane(p) => p.color,
            Shape3D::Cuboid(c) => c.color,
        }
    }

    pub fn get_emissive_color(&self) -> (c: Coordinates3D)
        requires
            shape_wf(*self),
        ensures
            c@ == shape_emissive_spec(*self),
            color01(c@),
    {
        match self {
            Shape3D::Sphere(sp) => sp.emissive_color,
            Shape3D::Plane(_) => Coordinates3D { x: 0, y: 0, z: 0 },
            Shape3D::Cuboid(c) => c.emissive_color,
        }
    }

    pub fn get_albedo(&self) -> (a: i64)
        requires
            shape_wf(*self),
        ensures
            a as int == shape_albedo_spec(*self),
            coeff01(a as int),
    {
        match self {
            Shape3D::Sphere(sp) => sp.albedo,
            Shape3D::Plane(p) => p.albedo,
            Shape3D::Cuboid(c) => c.albedo,
        }
    }

    pub fn get_reflectivity(&self) -> (a: i64)
        requires
            shape_wf(*self),
        ensures
            a as int == shape_reflectivity_spec(*self),
            coeff01(a as int),
    {
        match self {
            Shape3D::Sphere(sp) => sp.reflectivity,
            Shape3D::Plane(_) => 0,
            Shape3D::Cuboid(c) => c.reflectivity,
        }
    }
}

} // verus!
