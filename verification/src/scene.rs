//! The scene and its light-transport integrator: nearest-hit queries over
//! the shape list, direct lighting with shadow rays, Monte Carlo indirect
//! lighting, specular reflection, and the pixel loop that drives them.

use vstd::prelude::*;
use crate::camera::{camera_wf, Camera};
use crate::coordinates::{
    bounded3, vadd, vcross, vdot, vmul_elem, vneg, vscale, vscale_int, vsub, vzero, Coordinates3D,
    Vec3i, lemma_vcross_bound, lemma_vdot_bound, OMAX, UNIT_MAX,
};
use crate::distant_light::{light_wf, DistantLight, LIGHT_MAX};
use crate::fixed::{
    clamp01_spec, fx_div_spec, fx_mul_spec, lemma_fx_mul_bound, lemma_fx_mul_nonneg,
    lemma_tdiv_bound, lemma_tdiv_sign, tdiv, ONE, PI_FX,
};
use crate::intersection::{intersection_wf, Intersection, IntersectionV};
use crate::ray::{ray_from_points_spec, ray_spec, ray_wf, Ray, RayV};
use crate::rng::{mix_spec, next_state_spec};
use crate::shapes::{
    color01, coeff01, shape_albedo_spec, shape_color_spec, shape_emissive_spec, shape_hit_spec,
    shape_reflectivity_spec, shape_wf, Shape3D,
};
use crate::utils::{basis_spec, hemisphere_spec};
use vstd::arithmetic::div_mod::{lemma_div_is_ordered, lemma_div_multiples_vanish};

verus! {

/// Base of the per-depth radiance bound: emissive plus direct lighting stays
/// below this for any well-formed scene.
pub const RAD_BASE: i64 = 0x800000000;

/// The largest contribution a single light can make to the shading
/// coefficient.
pub const LIGHT_TERM_MAX: i64 = 21360640;

/// Bound on one radiance channel after `depth` remaining bounces: each bounce
/// can at most triple the incoming bound (indirect contributes twice it,
/// reflection once) on top of the local base.
pub open spec fn rad_bound(depth: int) -> int
    decreases depth,
{
    if depth <= 0 {
        RAD_BASE as int
    } else {
        RAD_BASE + 3 * rad_bound(depth - 1)
    }
}

/// All three channels in a closed range.
pub open spec fn vec_in_range(v: Vec3i, lo: int, hi: int) -> bool {
    lo <= v.x <= hi && lo <= v.y <= hi && lo <= v.z <= hi
}

pub struct Scene {
    pub camera: Camera,
    pub shapes: Vec<Shape3D>,
    pub lights: Vec<DistantLight>,
}

/// Well-formedness of a scene: every shape and light in range, and the two
/// lists small enough that the shading sums stay within the machine range.
pub open spec fn scene_wf(s: Scene) -> bool {
    &&& camera_wf(s.camera)
    &&& forall|i: int| 0 <= i < s.shapes@.len() ==> shape_wf(#[trigger] s.shapes@[i])
    &&& forall|i: int| 0 <= i < s.lights@.len() ==> light_wf(#[trigger] s.lights@[i])
    &&& s.shapes@.len() <= 0x10000
    &&& s.lights@.len() <= 1024
}

/// The nearest hit among the first `n` shapes, with the index of the shape
/// that produced it. A later shape displaces an earlier one only with a
/// strictly smaller distance.
pub open spec fn nearest_hit_upto(shapes: Seq<Shape3D>, ray: RayV, n: int) -> Option<
    (IntersectionV, int),
>
    decreases n,
{
    if n <= 0 {
        None
    } else {
        let prev = nearest_hit_upto(shapes, ray, n - 1);
        match shape_hit_spec(shapes[n - 1], ray) {
            None => prev,
            Some(cur) => match prev {
                None => Some((cur, n - 1)),
                Some(p) => if cur.distance < p.0.distance {
                    Some((cur, n - 1))
                } else {
                    Some(p)
                },
            },
        }
    }
}

pub open spec fn nearest_hit_spec(s: Scene, ray: RayV) -> Option<(IntersectionV, int)> {
    nearest_hit_upto(s.shapes@, ray, s.shapes@.len() as int)
}

/// Whether any of the first `n` shapes blocks the ray.
pub open spec fn occluded_upto(shapes: Seq<Shape3D>, ray: RayV, n: int) -> bool
    decreases n,
{
    if n <= 0 {
        false
    } else {
        occluded_upto(shapes, ray, n - 1) || shape_hit_spec(shapes[n - 1], ray) is Some
    }
}

pub open spec fn occluded_spec(s: Scene, ray: RayV) -> bool {
    occluded_upto(s.shapes@, ray, s.shapes@.len() as int)
}

/// One blocking shape makes the whole prefix occluded.
proof fn lemma_occluded_mono(shapes: Seq<Shape3D>, ray: RayV, i: int, n: int)
    requires
        0 <= i < n,
        shape_hit_spec(shapes[i], ray) is Some,
    ensures
        occluded_upto(shapes, ray, n),
    decreases n,
{
    if i < n - 1 {
        lemma_occluded_mono(shapes, ray, i, n - 1);
    }
}

/// The shading coefficient one distant light adds at a surface point: zero
/// when the shadow ray cannot be built, when it is blocked by any shape, or
/// when the light grazes or comes from behind the surface; otherwise
/// albedo / pi, scaled by the light's intensity and the incidence cosine.
pub open spec fn light_term_spec(
    shapes: Seq<Shape3D>,
    biased: Vec3i,
    normal: Vec3i,
    albedo: int,
    light: DistantLight,
) -> int {
    match ray_spec(biased, vneg(light.direction@)) {
        None => 0,
        Some(sray) => if occluded_upto(shapes, sray, shapes.len() as int) {
            0
        } else {
            let cosv = clamp01_spec(vdot(sray.unit_vec, normal));
            fx_mul_spec(
                fx_mul_spec(fx_div_spec(albedo, PI_FX as int), light.intensity as int),
                cosv,
            )
        },
    }
}

/// The summed shading coefficient of the first `n` lights.
pub open spec fn direct_coef_upto(
    s: Scene,
    biased: Vec3i,
    normal: Vec3i,
    albedo: int,
    n: int,
) -> int
    decreases n,
{
    if n <= 0 {
        0
    } else {
        direct_coef_upto(s, biased, normal, albedo, n - 1) + light_term_spec(
            s.shapes@,
            biased,
            normal,
            albedo,
            s.lights@[n - 1],
        )
    }
}

/// Direct lighting at a surface point: the summed coefficient over all
/// lights, applied to the surface colour when positive.
pub open spec fn distant_light_shading_spec(
    s: Scene,
    it: IntersectionV,
    color: Vec3i,
    albedo: int,
) -> Vec3i {
    let coef = direct_coef_upto(s, it.biased_location, it.normal, albedo, s.lights@.len() as int);
    if coef > 0 {
        vscale(color, coef)
    } else {
        vzero()
    }
}

/// Radiance carried back along a ray with `depth` bounces remaining: zero on
/// a miss, else emissive + direct + indirect + reflected. The key names the
/// random stream; every draw is a function of it.
pub open spec fn trace_spec(s: Scene, ray: RayV, depth: int, samples: int, key: u64) -> Vec3i
    decreases depth, 3int, 0int,
{
    if depth < 0 {
        vzero()
    } else {
        match nearest_hit_spec(s, ray) {
            None => vzero(),
            Some(p) => {
                let it = p.0;
                let shape = s.shapes@[p.1];
                let e = shape_emissive_spec(shape);
                let direct = distant_light_shading_spec(
                    s,
                    it,
                    shape_color_spec(shape),
                    shape_albedo_spec(shape),
                );
                let indirect = path_tracing_spec(s, it, shape, depth, samples, mix_spec(key, 1));
                let refl = reflection_spec(s, it, ray, shape, depth, samples, mix_spec(key, 2));
                vadd(vadd(vadd(e, direct), indirect), refl)
            },
        }
    }
}

/// Monte Carlo indirect lighting: the average of `samples` cosine-weighted
/// hemisphere estimates, doubled, scaled by the albedo and filtered by the
/// surface colour. Terminates with zero when the depth budget is spent.
pub open spec fn path_tracing_spec(
    s: Scene,
    it: IntersectionV,
    shape: Shape3D,
    depth: int,
    samples: int,
    key: u64,
) -> Vec3i
    decreases depth, 2int, 0int,
{
    if depth <= 0 || samples <= 0 {
        vzero()
    } else {
        let sum = indirect_sum_spec(s, it, depth, samples, key, samples);
        let avg = Vec3i {
            x: tdiv(sum.x, samples),
            y: tdiv(sum.y, samples),
            z: tdiv(sum.z, samples),
        };
        vmul_elem(
            vscale(vscale(avg, 2 * (ONE as int)), shape_albedo_spec(shape)),
            shape_color_spec(shape),
        )
    }
}

/// The sum of the first `k` indirect-lighting samples.
pub open spec fn indirect_sum_spec(
    s: Scene,
    it: IntersectionV,
    depth: int,
    samples: int,
    key: u64,
    k: int,
) -> Vec3i
    decreases depth, 1int, k,
{
    if k <= 0 || depth <= 0 {
        vzero()
    } else {
        vadd(
            indirect_sum_spec(s, it, depth, samples, key, k - 1),
            sample_contrib_spec(s, it, depth, samples, key, k - 1),
        )
    }
}

/// One indirect-lighting sample: a hemisphere direction drawn from the
/// sample's stream, rotated into the basis around the surface normal, traced
/// one level deeper and weighted by its incidence cosine. A draw whose ray
/// cannot be built contributes nothing.
pub open spec fn sample_contrib_spec(
    s: Scene,
    it: IntersectionV,
    depth: int,
    samples: int,
    key: u64,
    k: int,
) -> Vec3i
    decreases depth, 0int, 0int,
{
    if depth <= 0 {
        vzero()
    } else {
        let skey = mix_spec(key, k as u64);
        let w1 = next_state_spec(skey);
        let w2 = next_state_spec(w1);
        let w3 = next_state_spec(w2);
        let ckey = next_state_spec(w3);
        let sm = hemisphere_spec(w1, w2, w3);
        let basis = basis_spec(it.normal);
        let world = vadd(vadd(vscale(basis.0, sm.x), vscale(basis.1, sm.y)), vscale(basis.2, sm.z));
        match ray_spec(it.biased_location, world) {
            None => vzero(),
            Some(sray) => {
                let cosw = clamp01_spec(vdot(sray.unit_vec, it.normal));
                vscale(trace_spec(s, sray, depth - 1, samples, ckey), cosw)
            },
        }
    }
}

/// Specular reflection: the mirror direction traced one level deeper and
/// scaled by the reflectivity; zero for a matte surface or a spent depth
/// budget.
pub open spec fn reflection_spec(
    s: Scene,
    it: IntersectionV,
    ray: RayV,
    shape: Shape3D,
    depth: int,
    samples: int,
    key: u64,
) -> Vec3i
    decreases depth, 2int, 1int,
{
    if shape_reflectivity_spec(shape) > 0 && depth > 0 {
        let c = vdot(it.normal, ray.unit_vec);
        let rv = vsub(ray.unit_vec, vscale(it.normal, 2 * c));
        match ray_spec(it.biased_location, rv) {
            None => vzero(),
            Some(rray) => vscale(
                trace_spec(s, rray, depth - 1, samples, key),
                shape_reflectivity_spec(shape),
            ),
        }
    } else {
        vzero()
    }
}

pub proof fn lemma_rad_lower(depth: int)
    ensures
        rad_bound(depth) >= RAD_BASE,
    decreases depth,
{
    if depth > 0 {
        lemma_rad_lower(depth - 1);
    }
}

/// A nearest hit always names one of the scanned shapes.
proof fn lemma_nearest_in_range(shapes: Seq<Shape3D>, ray: RayV, n: int)
    ensures
        nearest_hit_upto(shapes, ray, n) matches Some(p) ==> 0 <= p.1 < n,
    decreases n,
{
    if n > 0 {
        lemma_nearest_in_range(shapes, ray, n - 1);
    }
}

proof fn lemma_light_term_bound(
    shapes: Seq<Shape3D>,
    biased: Vec3i,
    normal: Vec3i,
    albedo: int,
    light: DistantLight,
)
    requires
        coeff01(albedo),
        light_wf(light),
    ensures
        0 <= light_term_spec(shapes, biased, normal, albedo, light) <= LIGHT_TERM_MAX,
{
    match ray_spec(biased, vneg(light.direction@)) {
        None => {},
        Some(sray) => {
            if !occluded_upto(shapes, sray, shapes.len() as int) {
                let a1 = fx_div_spec(albedo, PI_FX as int);
                lemma_tdiv_bound(albedo * ONE, PI_FX as int, (ONE as int) * ONE);
                lemma_tdiv_sign(albedo * ONE, PI_FX as int);
                assert(0 <= a1 <= 20860);
                let t1 = fx_mul_spec(a1, light.intensity as int);
                lemma_fx_mul_bound(a1, light.intensity as int, 20860, LIGHT_MAX as int);
                lemma_fx_mul_nonneg(a1, light.intensity as int);
                assert(0 <= t1 <= LIGHT_TERM_MAX);
                let cosv = clamp01_spec(vdot(sray.unit_vec, normal));
                lemma_fx_mul_bound(t1, cosv, LIGHT_TERM_MAX as int, ONE as int);
                lemma_fx_mul_nonneg(t1, cosv);
                lemma_div_multiples_vanish(LIGHT_TERM_MAX as int, ONE as int);
                assert(LIGHT_TERM_MAX * ONE == (ONE as int) * (LIGHT_TERM_MAX as int));
            }
        },
    }
}

proof fn lemma_direct_coef_bound(s: Scene, biased: Vec3i, normal: Vec3i, albedo: int, n: int)
    requires
        scene_wf(s),
        coeff01(albedo),
        0 <= n <= s.lights@.len(),
    ensures
        0 <= direct_coef_upto(s, biased, normal, albedo, n) <= n * LIGHT_TERM_MAX,
    decreases n,
{
    if n > 0 {
        lemma_direct_coef_bound(s, biased, normal, albedo, n - 1);
        lemma_light_term_bound(s.shapes@, biased, normal, albedo, s.lights@[n - 1]);
    }
}

proof fn lemma_shading_bound(s: Scene, it: IntersectionV, color: Vec3i, albedo: int)
    requires
        scene_wf(s),
        color01(color),
        coeff01(albedo),
    ensures
        vec_in_range(
            distant_light_shading_spec(s, it, color, albedo),
            0,
            1024 * LIGHT_TERM_MAX,
        ),
{
    let n = s.lights@.len() as int;
    lemma_direct_coef_bound(s, it.biased_location, it.normal, albedo, n);
    let coef = direct_coef_upto(s, it.biased_location, it.normal, albedo, n);
    assert(n * LIGHT_TERM_MAX <= 1024 * LIGHT_TERM_MAX);
    if coef > 0 {
        lemma_fx_mul_bound(color.x, coef, ONE as int, 1024 * LIGHT_TERM_MAX);
        lemma_fx_mul_bound(color.y, coef, ONE as int, 1024 * LIGHT_TERM_MAX);
        lemma_fx_mul_bound(color.z, coef, ONE as int, 1024 * LIGHT_TERM_MAX);
        lemma_fx_mul_nonneg(color.x, coef);
        lemma_fx_mul_nonneg(color.y, coef);
        lemma_fx_mul_nonneg(color.z, coef);
        lemma_div_multiples_vanish(1024 * LIGHT_TERM_MAX, ONE as int);
        assert((ONE as int) * (1024 * LIGHT_TERM_MAX) == ONE * (1024 * LIGHT_TERM_MAX));
    }
}

/// With a spent depth budget a trace never recurses: it returns exactly the
/// emissive and direct-lighting terms of the nearest hit, and zero on a
/// miss.
pub proof fn lemma_trace_depth_zero(s: Scene, ray: RayV, samples: int, key: u64)
    ensures
        trace_spec(s, ray, 0, samples, key) == match nearest_hit_spec(s, ray) {
            None => vzero(),
            Some(p) => vadd(
                shape_emissive_spec(s.shapes@[p.1]),
                distant_light_shading_spec(
                    s,
                    p.0,
                    shape_color_spec(s.shapes@[p.1]),
                    shape_albedo_spec(s.shapes@[p.1]),
                ),
            ),
        },
{
    match nearest_hit_spec(s, ray) {
        None => {},
        Some(p) => {
            let shape = s.shapes@[p.1];
            assert(path_tracing_spec(s, p.0, shape, 0, samples, mix_spec(key, 1)) == vzero());
            assert(reflection_spec(s, p.0, ray, shape, 0, samples, mix_spec(key, 2)) == vzero());
        },
    }
}

/// A light whose shadow ray is blocked by any shape before reaching it
/// contributes nothing to the direct lighting at that point.
pub proof fn lemma_shadowed_light_dark(
    shapes: Seq<Shape3D>,
    biased: Vec3i,
    normal: Vec3i,
    albedo: int,
    light: DistantLight,
    i: int,
)
    requires
        0 <= i < shapes.len(),
        ray_spec(biased, vneg(light.direction@)) matches Some(sray) && shape_hit_spec(
            shapes[i],
            sray,
        ) is Some,
    ensures
        light_term_spec(shapes, biased, normal, albedo, light) == 0,
{
    match ray_spec(biased, vneg(light.direction@)) {
        None => {},
        Some(sray) => {
            lemma_occluded_mono(shapes, sray, i, shapes.len() as int);
        },
    }
}

/// The first few values of the radiance bound.
proof fn lemma_rad_values()
    ensures
        rad_bound(0) == RAD_BASE,
        rad_bound(1) == 4 * RAD_BASE,
        rad_bound(2) == 13 * RAD_BASE,
        rad_bound(3) == 40 * RAD_BASE,
        rad_bound(4) == 121 * RAD_BASE,
{
    assert(rad_bound(0) == RAD_BASE);
    assert(rad_bound(1) == RAD_BASE + 3 * rad_bound(0));
    assert(rad_bound(2) == RAD_BASE + 3 * rad_bound(1));
    assert(rad_bound(3) == RAD_BASE + 3 * rad_bound(2));
    assert(rad_bound(4) == RAD_BASE + 3 * rad_bound(3));
}

/// Within the supported depth budget the radiance bound fits comfortably in
/// the machine range.
pub proof fn lemma_rad_upper(depth: int)
    requires
        0 <= depth <= 4,
    ensures
        RAD_BASE <= rad_bound(depth) <= 121 * RAD_BASE,
{
    lemma_rad_values();
    lemma_rad_lower(depth);
    if depth == 0 {
    } else if depth == 1 {
    } else if depth == 2 {
    } else if depth == 3 {
    } else {
        assert(depth == 4);
    }
}

/// The traced radiance stays within the per-depth bound.
pub proof fn lemma_trace_bound(s: Scene, ray: RayV, depth: int, samples: int, key: u64)
    requires
        scene_wf(s),
        0 <= depth,
        1 <= samples <= 1024,
    ensures
        vec_in_range(trace_spec(s, ray, depth, samples, key), 0, rad_bound(depth)),
    decreases depth, 3int, 0int,
{
    lemma_rad_lower(depth);
    match nearest_hit_spec(s, ray) {
        None => {},
        Some(p) => {
            lemma_nearest_in_range(s.shapes@, ray, s.shapes@.len() as int);
            let it = p.0;
            let shape = s.shapes@[p.1];
            assert(shape_wf(shape));
            lemma_shading_bound(s, it, shape_color_spec(shape), shape_albedo_spec(shape));
            lemma_path_bound(s, it, shape, depth, samples, mix_spec(key, 1));
            lemma_reflection_bound(s, it, ray, shape, depth, samples, mix_spec(key, 2));
            if depth > 0 {
                lemma_rad_lower(depth - 1);
                assert(rad_bound(depth) == RAD_BASE + 3 * rad_bound(depth - 1));
            }
        },
    }
}

proof fn lemma_path_bound(
    s: Scene,
    it: IntersectionV,
    shape: Shape3D,
    depth: int,
    samples: int,
    key: u64,
)
    requires
        scene_wf(s),
        shape_wf(shape),
        0 <= depth,
        1 <= samples <= 1024,
    ensures
        vec_in_range(
            path_tracing_spec(s, it, shape, depth, samples, key),
            0,
            if depth <= 0 { 0 } else { 2 * rad_bound(depth - 1) },
        ),
    decreases depth, 2int, 0int,
{
    if depth > 0 {
        let r = rad_bound(depth - 1);
        lemma_rad_lower(depth - 1);
        lemma_indirect_sum_bound(s, it, depth, samples, key, samples);
        let sum = indirect_sum_spec(s, it, depth, samples, key, samples);
        lemma_tdiv_sign(sum.x, samples);
        lemma_tdiv_sign(sum.y, samples);
        lemma_tdiv_sign(sum.z, samples);
        lemma_div_is_ordered(sum.x, samples * r, samples);
        lemma_div_is_ordered(sum.y, samples * r, samples);
        lemma_div_is_ordered(sum.z, samples * r, samples);
        lemma_div_multiples_vanish(r, samples);
        let avg = Vec3i {
            x: tdiv(sum.x, samples),
            y: tdiv(sum.y, samples),
            z: tdiv(sum.z, samples),
        };
        assert(0 <= avg.x <= r && 0 <= avg.y <= r && 0 <= avg.z <= r);
        lemma_fx_mul_bound(avg.x, 2 * (ONE as int), r, 2 * (ONE as int));
        lemma_fx_mul_bound(avg.y, 2 * (ONE as int), r, 2 * (ONE as int));
        lemma_fx_mul_bound(avg.z, 2 * (ONE as int), r, 2 * (ONE as int));
        lemma_fx_mul_nonneg(avg.x, 2 * (ONE as int));
        lemma_fx_mul_nonneg(avg.y, 2 * (ONE as int));
        lemma_fx_mul_nonneg(avg.z, 2 * (ONE as int));
        assert(r * (2 * (ONE as int)) == (ONE as int) * (2 * r)) by (nonlinear_arith);
        lemma_div_multiples_vanish(2 * r, ONE as int);
        let s2 = vscale(avg, 2 * (ONE as int));
        assert(0 <= s2.x <= 2 * r && 0 <= s2.y <= 2 * r && 0 <= s2.z <= 2 * r);
        let alb = shape_albedo_spec(shape);
        lemma_fx_mul_bound(s2.x, alb, 2 * r, ONE as int);
        lemma_fx_mul_bound(s2.y, alb, 2 * r, ONE as int);
        lemma_fx_mul_bound(s2.z, alb, 2 * r, ONE as int);
        lemma_fx_mul_nonneg(s2.x, alb);
        lemma_fx_mul_nonneg(s2.y, alb);
        lemma_fx_mul_nonneg(s2.z, alb);
        assert((2 * r) * (ONE as int) == (ONE as int) * (2 * r)) by (nonlinear_arith);
        let s3 = vscale(s2, alb);
        assert(0 <= s3.x <= 2 * r && 0 <= s3.y <= 2 * r && 0 <= s3.z <= 2 * r);
        let col = shape_color_spec(shape);
        lemma_fx_mul_bound(s3.x, col.x, 2 * r, ONE as int);
        lemma_fx_mul_bound(s3.y, col.y, 2 * r, ONE as int);
        lemma_fx_mul_bound(s3.z, col.z, 2 * r, ONE as int);
        lemma_fx_mul_nonneg(s3.x, col.x);
        lemma_fx_mul_nonneg(s3.y, col.y);
        lemma_fx_mul_nonneg(s3.z, col.z);
    }
}

proof fn lemma_indirect_sum_bound(
    s: Scene,
    it: IntersectionV,
    depth: int,
    samples: int,
    key: u64,
    k: int,
)
    requires
        scene_wf(s),
        0 <= depth,
        1 <= samples <= 1024,
        0 <= k <= samples,
    ensures
        vec_in_range(
            indirect_sum_spec(s, it, depth, samples, key, k),
            0,
            k * rad_bound(depth - 1),
        ),
    decreases depth, 1int, k,
{
    let r = rad_bound(depth - 1);
    lemma_rad_lower(depth - 1);
    if k <= 0 || depth <= 0 {
        assert(k * r >= 0) by (nonlinear_arith)
            requires k >= 0, r >= 0,
        ;
    } else {
        lemma_indirect_sum_bound(s, it, depth, samples, key, k - 1);
        lemma_sample_bound(s, it, depth, samples, key, k - 1);
        assert((k - 1) * r + r == k * r) by (nonlinear_arith);
    }
}

proof fn lemma_sample_bound(
    s: Scene,
    it: IntersectionV,
    depth: int,
    samples: int,
    key: u64,
    k: int,
)
    requires
        scene_wf(s),
        1 <= depth,
        1 <= samples <= 1024,
    ensures
        vec_in_range(sample_contrib_spec(s, it, depth, samples, key, k), 0, rad_bound(depth - 1)),
    decreases depth, 0int, 0int,
{
    let r = rad_bound(depth - 1);
    lemma_rad_lower(depth - 1);
    let skey = mix_spec(key, k as u64);
    let w1 = next_state_spec(skey);
    let w2 = next_state_spec(w1);
    let w3 = next_state_spec(w2);
    let ckey = next_state_spec(w3);
    let sm = hemisphere_spec(w1, w2, w3);
    let basis = basis_spec(it.normal);
    let world = vadd(vadd(vscale(basis.0, sm.x), vscale(basis.1, sm.y)), vscale(basis.2, sm.z));
    match ray_spec(it.biased_location, world) {
        None => {},
        Some(sray) => {
            lemma_trace_bound(s, sray, depth - 1, samples, ckey);
            let rec = trace_spec(s, sray, depth - 1, samples, ckey);
            let cosw = clamp01_spec(vdot(sray.unit_vec, it.normal));
            lemma_fx_mul_bound(rec.x, cosw, r, ONE as int);
            lemma_fx_mul_bound(rec.y, cosw, r, ONE as int);
            lemma_fx_mul_bound(rec.z, cosw, r, ONE as int);
            lemma_fx_mul_nonneg(rec.x, cosw);
            lemma_fx_mul_nonneg(rec.y, cosw);
            lemma_fx_mul_nonneg(rec.z, cosw);
            assert(r * (ONE as int) == (ONE as int) * r) by (nonlinear_arith);
            lemma_div_multiples_vanish(r, ONE as int);
        },
    }
}

proof fn lemma_reflection_bound(
    s: Scene,
    it: IntersectionV,
    ray: RayV,
    shape: Shape3D,
    depth: int,
    samples: int,
    key: u64,
)
    requires
        scene_wf(s),
        shape_wf(shape),
        0 <= depth,
        1 <= samples <= 1024,
    ensures
        vec_in_range(
            reflection_spec(s, it, ray, shape, depth, samples, key),
            0,
            if depth <= 0 { 0 } else { rad_bound(depth - 1) },
        ),
    decreases depth, 2int, 1int,
{
    lemma_rad_lower(depth - 1);
    if shape_reflectivity_spec(shape) > 0 && depth > 0 {
        let r = rad_bound(depth - 1);
        let c = vdot(it.normal, ray.unit_vec);
        let rv = vsub(ray.unit_vec, vscale(it.normal, 2 * c));
        match ray_spec(it.biased_location, rv) {
            None => {},
            Some(rray) => {
                lemma_trace_bound(s, rray, depth - 1, samples, key);
                let rec = trace_spec(s, rray, depth - 1, samples, key);
                let refl = shape_reflectivity_spec(shape);
                lemma_fx_mul_bound(rec.x, refl, r, ONE as int);
                lemma_fx_mul_bound(rec.y, refl, r, ONE as int);
                lemma_fx_mul_bound(rec.z, refl, r, ONE as int);
                lemma_fx_mul_nonneg(rec.x, refl);
                lemma_fx_mul_nonneg(rec.y, refl);
                lemma_fx_mul_nonneg(rec.z, refl);
                assert(r * (ONE as int) == (ONE as int) * r) by (nonlinear_arith);
                lemma_div_multiples_vanish(r, ONE as int);
            },
        }
    }
}

/// tan of half the fixed field of view (an eighth turn), in fixed point.
pub const TAN_FOV_HALF: i64 = 27146;

/// The viewport frame for a render: the world position sampled by the
/// top-left pixel, and the per-pixel step vectors along the image's x and y
/// axes.
pub open spec fn viewport_spec(cam: Camera, dimx: int, dimy: int) -> (Vec3i, Vec3i, Vec3i)
    recommends dimx >= 2, dimy >= 2,
{
    let t = cam.cam_orient@;
    let w = cam.up_vec@;
    let b = vcross(w, t);
    let v = vcross(t, b);
    let g_x = TAN_FOV_HALF as int;
    let ratio = tdiv(dimy * ONE, dimx);
    let g_y = fx_mul_spec(g_x, ratio);
    let p11 = vadd(vsub(vadd(cam.cam_pos@, t), vscale(b, g_x)), vscale(v, g_y));
    let s_x = tdiv(2 * g_x, dimx - 1);
    let s_y = tdiv(2 * g_y, dimy - 1);
    (p11, vscale(b, s_x), vscale(v, s_y))
}

/// The world position pixel (px, py) samples.
pub open spec fn pixel_pos_spec(cam: Camera, dimx: int, dimy: int, px: int, py: int) -> Vec3i {
    let vp = viewport_spec(cam, dimx, dimy);
    vsub(vadd(vp.0, vscale_int(vp.1, px)), vscale_int(vp.2, py))
}

/// The primary ray of the i-th pixel in row-major order, or nothing when the
/// sampled viewport position leaves the world bounds or coincides with the
/// camera position.
pub open spec fn pixel_ray_spec(cam: Camera, dimx: int, dimy: int, i: int) -> Option<RayV> {
    let px = i % dimx;
    let py = i / dimx;
    let pos = pixel_pos_spec(cam, dimx, dimy, px, py);
    if !bounded3(pos, OMAX as int) {
        None
    } else {
        ray_from_points_spec(cam.cam_pos@, pos)
    }
}

/// One output channel: radiance scaled to the 16-bit range and clamped.
pub open spec fn chan_spec(c: int) -> int {
    let v = tdiv(c * 65535, ONE as int);
    if v < 0 { 0 } else if v > 65535 { 65535 } else { v }
}

/// The colour of the i-th pixel: the traced radiance of its primary ray on
/// the random stream derived from the seed and the pixel index; black when
/// the pixel has no ray.
pub open spec fn pixel_color_spec(
    s: Scene,
    dimx: int,
    dimy: int,
    depth: int,
    samples: int,
    seed: u64,
    i: int,
) -> (int, int, int) {
    match pixel_ray_spec(s.camera, dimx, dimy, i) {
        None => (0, 0, 0),
        Some(ray) => {
            let c = trace_spec(s, ray, depth, samples, mix_spec(seed, i as u64));
            (chan_spec(c.x), chan_spec(c.y), chan_spec(c.z))
        },
    }
}

/// What it means for a pixel buffer to be the render of a scene at the given
/// resolution, depth, sample count and seed: three channels per pixel, in
/// row-major order.
pub open spec fn render_ok(
    s: Scene,
    pixels: Seq<u16>,
    dimx: int,
    dimy: int,
    depth: int,
    samples: int,
    seed: u64,
) -> bool {
    &&& pixels.len() == 3 * (dimx * dimy)
    &&& forall|i: int|
        0 <= i < dimx * dimy ==> (
        #[trigger] pixels[3 * i] as int,
        pixels[3 * i + 1] as int,
        pixels[3 * i + 2] as int,
    ) == pixel_color_spec(s, dimx, dimy, depth, samples, seed, i)
}

/// Rendering is deterministic: two renders of the same immutable scene with
/// the same resolution, depth, sample count and seed are pixel-identical.
pub proof fn lemma_render_deterministic(
    s: Scene,
    dimx: int,
    dimy: int,
    depth: int,
    samples: int,
    seed: u64,
    a: Seq<u16>,
    b: Seq<u16>,
)
    requires
        render_ok(s, a, dimx, dimy, depth, samples, seed),
        render_ok(s, b, dimx, dimy, depth, samples, seed),
    ensures
        a == b,
{
    assert forall|j: int| 0 <= j < a.len() implies a[j] == b[j] by {
        vstd::arithmetic::div_mod::lemma_fundamental_div_mod(j, 3);
        vstd::arithmetic::div_mod::lemma_mod_bound(j, 3);
        let i = j / 3;
        assert(0 <= i < dimx * dimy) by (nonlinear_arith)
            requires 0 <= j < 3 * (dimx * dimy), i == j / 3, j == 3 * i + j % 3, 0 <= j % 3 < 3,
        ;
        assert((a[3 * i] as int, a[3 * i + 1] as int, a[3 * i + 2] as int) == pixel_color_spec(
            s, dimx, dimy, depth, samples, seed, i,
        ));
        assert((b[3 * i] as int, b[3 * i + 1] as int, b[3 * i + 2] as int) == pixel_color_spec(
            s, dimx, dimy, depth, samples, seed, i,
        ));
    }
    assert(a =~= b);
}

/// One output channel from a radiance value.
fn chan(c: i64) -> (r: u16)
    requires
        -0x80000000000 <= c <= 0x80000000000,
    ensures
        r as int == chan_spec(c as int),
{
    proof {
        lemma_tdiv_sign((c as int) * 65535, ONE as int);
        lemma_tdiv_bound((c as int) * 65535, ONE as int, 0x7fffffff0000080000);
        crate::fixed::lemma_abs_mul(c as int, 65535);
    }
    let v = crate::fixed::idiv(c * 65535, ONE);
    if v < 0 {
        0
    } else if v > 65535 {
        65535
    } else {
        v as u16
    }
}

impl Scene {
    /// The closest intersection of the ray across all shapes, with the index
    /// of the shape it struck.
    fn nearest_hit(&self, ray: &Ray) -> (res: Option<(Intersection, usize)>)
        requires
            scene_wf(*self),
            ray_wf(ray@),
        ensures
            (res is Some) == (nearest_hit_spec(*self, ray@) is Some),
            res matches Some(p) ==> Some((p.0@, p.1 as int)) == nearest_hit_spec(*self, ray@)
                && intersection_wf(p.0@) && p.1 < self.shapes@.len(),
    {
        let mut best: Option<(Intersection, usize)> = None;
        let n = self.shapes.len();
        for i in 0..n
            invariant
                n == self.shapes@.len(),
                scene_wf(*self),
                ray_wf(ray@),
                (best is Some) == (nearest_hit_upto(self.shapes@, ray@, i as int) is Some),
                best matches Some(p) ==> Some((p.0@, p.1 as int)) == nearest_hit_upto(
                    self.shapes@,
                    ray@,
                    i as int,
                ) && intersection_wf(p.0@) && p.1 < n,
        {
            let hit = self.shapes[i].ray_closest_intersections(ray);
            match hit {
                None => {},
                Some(cur) => {
                    best = match best {
                        None => Some((cur, i)),
                        Some(p) => if cur.distance < p.0.distance {
                            Some((cur, i))
                        } else {
                            Some(p)
                        },
                    };
                },
            }
        }
        best
    }

    /// Whether any shape blocks the ray; used for shadow tests.
    fn occluded(&self, ray: &Ray) -> (res: bool)
        requires
            scene_wf(*self),
            ray_wf(ray@),
        ensures
            res == occluded_spec(*self, ray@),
    {
        let n = self.shapes.len();
        for i in 0..n
            invariant
                n == self.shapes@.len(),
                scene_wf(*self),
                ray_wf(ray@),
                !occluded_upto(self.shapes@, ray@, i as int),
        {
            if self.shapes[i].ray_closest_intersections(ray).is_some() {
                proof {
                    lemma_occluded_mono(self.shapes@, ray@, i as int, self.shapes@.len() as int);
                }
                return true;
            }
        }
        false
    }

    /// Direct lighting at a hit point: one shadow ray per light, a binary
    /// occlusion test, and the cosine-weighted coefficient applied to the
    /// surface colour.
    fn distant_light_shading(&self, it: &Intersection, shape: &Shape3D) -> (r: Coordinates3D)
        requires
            scene_wf(*self),
            intersection_wf(it@),
            shape_wf(*shape),
        ensures
            r@ == distant_light_shading_spec(
                *self,
                it@,
                shape_color_spec(*shape),
                shape_albedo_spec(*shape),
            ),
    {
        let albedo = shape.get_albedo();
        let mut coef: i64 = 0;
        let nl = self.lights.len();
        for i in 0..nl
            invariant
                nl == self.lights@.len(),
                scene_wf(*self),
                intersection_wf(it@),
                shape_wf(*shape),
                albedo as int == shape_albedo_spec(*shape),
                coeff01(albedo as int),
                coef as int == direct_coef_upto(
                    *self,
                    it@.biased_location,
                    it@.normal,
                    albedo as int,
                    i as int,
                ),
                0 <= coef <= (i as int) * LIGHT_TERM_MAX,
        {
            let light = &self.lights[i];
            proof {
                assert(light_wf(self.lights@[i as int]));
                lemma_light_term_bound(
                    self.shapes@,
                    it@.biased_location,
                    it@.normal,
                    albedo as int,
                    self.lights@[i as int],
                );
            }
            let inv_dir = light.direction.neg();
            let term: i64 = match Ray::new_from_origine_and_direction(
                &it.biased_location,
                &inv_dir,
            ) {
                None => 0,
                Some(sray) => {
                    if self.occluded(&sray) {
                        0
                    } else {
                        proof {
                            lemma_vdot_bound(
                                sray@.unit_vec,
                                it@.normal,
                                UNIT_MAX as int,
                                UNIT_MAX as int,
                            );
                            lemma_tdiv_bound(
                                (albedo as int) * ONE,
                                PI_FX as int,
                                (ONE as int) * ONE,
                            );
                            lemma_tdiv_sign((albedo as int) * ONE, PI_FX as int);
                        }
                        let cosv = crate::fixed::clamp01(sray.unit_vec.dot(&it.normal));
                        let a1 = crate::fixed::fx_div(albedo, crate::fixed::PI_FX);
                        proof {
                            lemma_fx_mul_bound(
                                a1 as int,
                                self.lights@[i as int].intensity as int,
                                20860,
                                LIGHT_MAX as int,
                            );
                            lemma_fx_mul_nonneg(a1 as int, self.lights@[i as int].intensity as int);
                        }
                        let t1 = crate::fixed::fx_mul(a1, light.intensity);
                        proof {
                            lemma_fx_mul_bound(
                                t1 as int,
                                cosv as int,
                                LIGHT_TERM_MAX as int,
                                ONE as int,
                            );
                            lemma_fx_mul_nonneg(t1 as int, cosv as int);
                        }
                        crate::fixed::fx_mul(t1, cosv)
                    }
                },
            };
            coef = coef + term;
        }
        if coef > 0 {
            let color = shape.get_color();
            proof {
                lemma_fx_mul_bound(color@.x, coef as int, ONE as int, 1024 * LIGHT_TERM_MAX);
                lemma_fx_mul_bound(color@.y, coef as int, ONE as int, 1024 * LIGHT_TERM_MAX);
                lemma_fx_mul_bound(color@.z, coef as int, ONE as int, 1024 * LIGHT_TERM_MAX);
            }
            color.mul(coef)
        } else {
            Coordinates3D::zero()
        }
    }

    /// Monte Carlo indirect lighting at a hit point: average the
    /// cosine-weighted radiance of hemisphere sample rays traced one level
    /// deeper.
    fn path_tracing(
        &self,
        it: &Intersection,
        shape: &Shape3D,
        depth: u8,
        samples: u32,
        key: u64,
    ) -> (r: Coordinates3D)
        requires
            scene_wf(*self),
            intersection_wf(it@),
            shape_wf(*shape),
            depth <= 4,
            1 <= samples <= 1024,
        ensures
            r@ == path_tracing_spec(
                *self,
                it@,
                *shape,
                depth as int,
                samples as int,
                key,
            ),
        decreases depth, 2int, 0int,
    {
        if depth == 0 {
            return Coordinates3D::zero();
        }
        let basis = crate::utils::create_coordinate_system_from_up_vector(&it.normal);
        let mut sum = Coordinates3D::zero();
        let mut k: u32 = 0;
        proof {
            lemma_rad_upper(depth as int - 1);
        }
        while k < samples
            invariant
                scene_wf(*self),
                intersection_wf(it@),
                shape_wf(*shape),
                1 <= depth <= 4,
                1 <= samples <= 1024,
                k <= samples,
                (basis[0]@, basis[1]@, basis[2]@) == basis_spec(it@.normal),
                bounded3(basis[0]@, crate::utils::BASIS_MAX as int),
                bounded3(basis[1]@, UNIT_MAX as int),
                bounded3(basis[2]@, 0x100000),
                sum@ == indirect_sum_spec(
                    *self,
                    it@,
                    depth as int,
                    samples as int,
                    key,
                    k as int,
                ),
                vec_in_range(sum@, 0, (k as int) * rad_bound(depth as int - 1)),
                rad_bound(depth as int - 1) <= 121 * RAD_BASE,
            decreases samples - k,
        {
            let skey = crate::rng::mix(key, k as u64);
            let w1 = crate::rng::next_state(skey);
            let w2 = crate::rng::next_state(w1);
            let w3 = crate::rng::next_state(w2);
            let ckey = crate::rng::next_state(w3);
            let sm = crate::utils::uniform_sampling_hemisphere(w1, w2, w3);
            proof {
                lemma_fx_mul_bound(basis[0]@.x, sm@.x, crate::utils::BASIS_MAX as int, UNIT_MAX as int);
                lemma_fx_mul_bound(basis[0]@.y, sm@.x, crate::utils::BASIS_MAX as int, UNIT_MAX as int);
                lemma_fx_mul_bound(basis[0]@.z, sm@.x, crate::utils::BASIS_MAX as int, UNIT_MAX as int);
                lemma_fx_mul_bound(basis[1]@.x, sm@.y, UNIT_MAX as int, UNIT_MAX as int);
                lemma_fx_mul_bound(basis[1]@.y, sm@.y, UNIT_MAX as int, UNIT_MAX as int);
                lemma_fx_mul_bound(basis[1]@.z, sm@.y, UNIT_MAX as int, UNIT_MAX as int);
                lemma_fx_mul_bound(basis[2]@.x, sm@.z, 0x100000, UNIT_MAX as int);
                lemma_fx_mul_bound(basis[2]@.y, sm@.z, 0x100000, UNIT_MAX as int);
                lemma_fx_mul_bound(basis[2]@.z, sm@.z, 0x100000, UNIT_MAX as int);
            }
            let t0 = basis[0].mul(sm.x);
            let t1 = basis[1].mul(sm.y);
            let t2 = basis[2].mul(sm.z);
            let world = t0.add(&t1).add(&t2);
            let part = match Ray::new_from_origine_and_direction(&it.biased_location, &world) {
                None => Coordinates3D::zero(),
                Some(sray) => {
                    let rec = self.trace_ray(&sray, depth - 1, samples, ckey);
                    proof {
                        lemma_vdot_bound(
                            sray@.unit_vec,
                            it@.normal,
                            UNIT_MAX as int,
                            UNIT_MAX as int,
                        );
                    }
                    let cosw = crate::fixed::clamp01(sray.unit_vec.dot(&it.normal));
                    proof {
                        lemma_fx_mul_bound(rec@.x, cosw as int, 121 * RAD_BASE, ONE as int);
                        lemma_fx_mul_bound(rec@.y, cosw as int, 121 * RAD_BASE, ONE as int);
                        lemma_fx_mul_bound(rec@.z, cosw as int, 121 * RAD_BASE, ONE as int);
                    }
                    rec.mul(cosw)
                },
            };
            proof {
                lemma_sample_bound(*self, it@, depth as int, samples as int, key, k as int);
                lemma_indirect_sum_bound(
                    *self,
                    it@,
                    depth as int,
                    samples as int,
                    key,
                    k as int + 1,
                );
                assert((k as int) * rad_bound(depth as int - 1) <= 1024 * (121 * RAD_BASE))
                    by (nonlinear_arith)
                    requires
                        0 <= k as int <= 1024,
                        0 <= rad_bound(depth as int - 1) <= 121 * RAD_BASE,
                ;
            }
            sum = sum.add(&part);
            k = k + 1;
        }
        proof {
            lemma_indirect_sum_bound(
                *self,
                it@,
                depth as int,
                samples as int,
                key,
                samples as int,
            );
            assert((samples as int) * rad_bound(depth as int - 1) <= 1024 * (121 * RAD_BASE))
                by (nonlinear_arith)
                requires
                    0 <= samples as int <= 1024,
                    0 <= rad_bound(depth as int - 1) <= 121 * RAD_BASE,
            ;
            lemma_tdiv_bound(sum@.x, samples as int, 1024 * (121 * RAD_BASE));
            lemma_tdiv_bound(sum@.y, samples as int, 1024 * (121 * RAD_BASE));
            lemma_tdiv_bound(sum@.z, samples as int, 1024 * (121 * RAD_BASE));
        }
        let avg = Coordinates3D {
            x: crate::fixed::idiv(sum.x, samples as i64),
            y: crate::fixed::idiv(sum.y, samples as i64),
            z: crate::fixed::idiv(sum.z, samples as i64),
        };
        proof {
            lemma_fx_mul_bound(avg@.x, 2 * (ONE as int), 1024 * (121 * RAD_BASE), 2 * (ONE as int));
            lemma_fx_mul_bound(avg@.y, 2 * (ONE as int), 1024 * (121 * RAD_BASE), 2 * (ONE as int));
            lemma_fx_mul_bound(avg@.z, 2 * (ONE as int), 1024 * (121 * RAD_BASE), 2 * (ONE as int));
        }
        let s2 = avg.mul(2 * ONE);
        let albedo = shape.get_albedo();
        proof {
            lemma_fx_mul_bound(s2@.x, albedo as int, 0x1000000000000000, ONE as int);
            lemma_fx_mul_bound(s2@.y, albedo as int, 0x1000000000000000, ONE as int);
            lemma_fx_mul_bound(s2@.z, albedo as int, 0x1000000000000000, ONE as int);
        }
        let s3 = s2.mul(albedo);
        let color = shape.get_color();
        proof {
            lemma_fx_mul_bound(s3@.x, color@.x, 0x1000000000000000, ONE as int);
            lemma_fx_mul_bound(s3@.y, color@.y, 0x1000000000000000, ONE as int);
            lemma_fx_mul_bound(s3@.z, color@.z, 0x1000000000000000, ONE as int);
        }
        s3.mul_elem(&color)
    }

    /// Specular reflection at a hit point: the mirror ray traced one level
    /// deeper and scaled by the reflectivity.
    fn reflection_shading(
        &self,
        it: &Intersection,
        ray: &Ray,
        shape: &Shape3D,
        depth: u8,
        samples: u32,
        key: u64,
    ) -> (r: Coordinates3D)
        requires
            scene_wf(*self),
            intersection_wf(it@),
            ray_wf(ray@),
            shape_wf(*shape),
            depth <= 4,
            1 <= samples <= 1024,
        ensures
            r@ == reflection_spec(
                *self,
                it@,
                ray@,
                *shape,
                depth as int,
                samples as int,
                key,
            ),
        decreases depth, 2int, 1int,
    {
        let refl = shape.get_reflectivity();
        if refl > 0 && depth > 0 {
            proof {
                lemma_vdot_bound(it@.normal, ray@.unit_vec, UNIT_MAX as int, UNIT_MAX as int);
            }
            let c = it.normal.dot(&ray.unit_vec);
            let sc = 2 * c;
            proof {
                lemma_fx_mul_bound(it@.normal.x, sc as int, UNIT_MAX as int, 0x180000);
                lemma_fx_mul_bound(it@.normal.y, sc as int, UNIT_MAX as int, 0x180000);
                lemma_fx_mul_bound(it@.normal.z, sc as int, UNIT_MAX as int, 0x180000);
            }
            let sv = it.normal.mul(sc);
            let rv = ray.unit_vec.sub(&sv);
            match Ray::new_from_origine_and_direction(&it.biased_location, &rv) {
                None => Coordinates3D::zero(),
                Some(rray) => {
                    let rec = self.trace_ray(&rray, depth - 1, samples, key);
                    proof {
                        lemma_rad_upper(depth as int - 1);
                        lemma_fx_mul_bound(rec@.x, refl as int, 121 * RAD_BASE, ONE as int);
                        lemma_fx_mul_bound(rec@.y, refl as int, 121 * RAD_BASE, ONE as int);
                        lemma_fx_mul_bound(rec@.z, refl as int, 121 * RAD_BASE, ONE as int);
                    }
                    rec.mul(refl)
                },
            }
        } else {
            Coordinates3D::zero()
        }
    }

    /// Radiance along a ray with `depth` bounces remaining: zero on a miss,
    /// else the sum of the emissive, direct, indirect and reflected terms of
    /// the nearest hit.
    pub fn trace_ray(&self, ray: &Ray, depth: u8, samples: u32, key: u64) -> (r: Coordinates3D)
        requires
            scene_wf(*self),
            ray_wf(ray@),
            depth <= 4,
            1 <= samples <= 1024,
        ensures
            r@ == trace_spec(*self, ray@, depth as int, samples as int, key),
            vec_in_range(r@, 0, rad_bound(depth as int)),
        decreases depth, 3int, 0int,
    {
        proof {
            lemma_trace_bound(*self, ray@, depth as int, samples as int, key);
            lemma_rad_upper(depth as int);
        }
        match self.nearest_hit(ray) {
            None => Coordinates3D::zero(),
            Some((it, idx)) => {
                let shape = &self.shapes[idx];
                proof {
                    lemma_shading_bound(
                        *self,
                        it@,
                        shape_color_spec(self.shapes@[idx as int]),
                        shape_albedo_spec(self.shapes@[idx as int]),
                    );
                    lemma_path_bound(
                        *self,
                        it@,
                        self.shapes@[idx as int],
                        depth as int,
                        samples as int,
                        mix_spec(key, 1),
                    );
                    lemma_reflection_bound(
                        *self,
                        it@,
                        ray@,
                        self.shapes@[idx as int],
                        depth as int,
                        samples as int,
                        mix_spec(key, 2),
                    );
                    if depth > 0 {
                        lemma_rad_upper(depth as int - 1);
                    }
                }
                let e = shape.get_emissive_color();
                let direct = self.distant_light_shading(&it, shape);
                let indirect = self.path_tracing(&it, shape, depth, samples, crate::rng::mix(key, 1));
                let refl = self.reflection_shading(
                    &it,
                    ray,
                    shape,
                    depth,
                    samples,
                    crate::rng::mix(key, 2),
                );
                e.add(&direct).add(&indirect).add(&refl)
            },
        }
    }

    /// The viewport frame of a render at the given resolution.
    fn viewport(&self, dimx: u32, dimy: u32) -> (vp: (Coordinates3D, Coordinates3D, Coordinates3D))
        requires
            scene_wf(*self),
            2 <= dimx <= 8192,
            2 <= dimy <= 8192,
        ensures
            (vp.0@, vp.1@, vp.2@) == viewport_spec(self.camera, dimx as int, dimy as int),
            bounded3(vp.0@, 0x300000000),
            bounded3(vp.1@, 434336),
            bounded3(vp.2@, 14232322048),
    {
        let t = self.camera.cam_orient;
        let w = self.camera.up_vec;
        proof {
            lemma_vcross_bound(w@, t@, UNIT_MAX as int, UNIT_MAX as int);
        }
        let b = w.cross(&t);
        proof {
            lemma_vcross_bound(t@, b@, UNIT_MAX as int, 524288);
        }
        let v = t.cross(&b);
        let g_x = TAN_FOV_HALF;
        proof {
            lemma_tdiv_bound((dimy as int) * ONE, dimx as int, 0x20000000);
        }
        let ratio = crate::fixed::idiv((dimy as i64) * ONE, dimx as i64);
        proof {
            lemma_fx_mul_bound(g_x as int, ratio as int, 27146, 0x20000000);
        }
        let g_y = crate::fixed::fx_mul(g_x, ratio);
        proof {
            lemma_fx_mul_bound(b@.x, g_x as int, 524288, 27146);
            lemma_fx_mul_bound(b@.y, g_x as int, 524288, 27146);
            lemma_fx_mul_bound(b@.z, g_x as int, 524288, 27146);
            lemma_fx_mul_bound(v@.x, g_y as int, 2097152, 222380032);
            lemma_fx_mul_bound(v@.y, g_y as int, 2097152, 222380032);
            lemma_fx_mul_bound(v@.z, g_y as int, 2097152, 222380032);
        }
        let p11 = self.camera.cam_pos.add(&t).sub(&b.mul(g_x)).add(&v.mul(g_y));
        proof {
            lemma_tdiv_bound(2 * (g_x as int), dimx as int - 1, 54292);
            lemma_tdiv_bound(2 * (g_y as int), dimy as int - 1, 444760064);
        }
        let s_x = crate::fixed::idiv(2 * g_x, dimx as i64 - 1);
        let s_y = crate::fixed::idiv(2 * g_y, dimy as i64 - 1);
        proof {
            lemma_fx_mul_bound(b@.x, s_x as int, 524288, 54292);
            lemma_fx_mul_bound(b@.y, s_x as int, 524288, 54292);
            lemma_fx_mul_bound(b@.z, s_x as int, 524288, 54292);
            lemma_fx_mul_bound(v@.x, s_y as int, 2097152, 444760064);
            lemma_fx_mul_bound(v@.y, s_y as int, 2097152, 444760064);
            lemma_fx_mul_bound(v@.z, s_y as int, 2097152, 444760064);
        }
        let q_x = b.mul(s_x);
        let q_y = v.mul(s_y);
        (p11, q_x, q_y)
    }

    /// The three channels of one pixel, from a precomputed viewport frame.
    fn pixel_trip(
        &self,
        dimx: u32,
        dimy: u32,
        depth: u8,
        samples: u32,
        seed: u64,
        i: u32,
        p11: &Coordinates3D,
        q_x: &Coordinates3D,
        q_y: &Coordinates3D,
    ) -> (trip: (u16, u16, u16))
        requires
            scene_wf(*self),
            2 <= dimx <= 8192,
            2 <= dimy <= 8192,
            depth <= 4,
            1 <= samples <= 1024,
            (i as int) < (dimx as int) * (dimy as int),
            (p11@, q_x@, q_y@) == viewport_spec(self.camera, dimx as int, dimy as int),
            bounded3(p11@, 0x300000000),
            bounded3(q_x@, 434336),
            bounded3(q_y@, 14232322048),
        ensures
            (trip.0 as int, trip.1 as int, trip.2 as int) == pixel_color_spec(
                *self,
                dimx as int,
                dimy as int,
                depth as int,
                samples as int,
                seed,
                i as int,
            ),
    {
        let px = i % dimx;
        let py = i / dimx;
        proof {
            vstd::arithmetic::div_mod::lemma_mod_bound(i as int, dimx as int);
            vstd::arithmetic::div_mod::lemma_multiply_divide_lt(
                i as int,
                dimx as int,
                dimy as int,
            );
            lemma_fx_mul_bound(q_x@.x, px as int, 434336, 8191);
            lemma_fx_mul_bound(q_x@.y, px as int, 434336, 8191);
            lemma_fx_mul_bound(q_x@.z, px as int, 434336, 8191);
            lemma_fx_mul_bound(q_y@.x, py as int, 14232322048, 8191);
            lemma_fx_mul_bound(q_y@.y, py as int, 14232322048, 8191);
            lemma_fx_mul_bound(q_y@.z, py as int, 14232322048, 8191);
        }
        let pos = p11.add(&q_x.mul_int(px as i64)).sub(&q_y.mul_int(py as i64));
        if pos.x > OMAX || pos.x < -OMAX || pos.y > OMAX || pos.y < -OMAX || pos.z > OMAX || pos.z
            < -OMAX {
            (0, 0, 0)
        } else {
            match Ray::new_from_points(&self.camera.cam_pos, &pos) {
                None => (0, 0, 0),
                Some(ray) => {
                    let c = self.trace_ray(&ray, depth, samples, crate::rng::mix(seed, i as u64));
                    proof {
                        lemma_rad_upper(depth as int);
                    }
                    (chan(c.x), chan(c.y), chan(c.z))
                },
            }
        }
    }

    /// The three channels of the i-th pixel of a seeded render, in row-major
    /// order: pixels are independent, so a caller may evaluate them in any
    /// order or in parallel and place each at its index.
    pub fn render_pixel(
        &self,
        dimx: u32,
        dimy: u32,
        depth: u8,
        samples: u32,
        seed: u64,
        i: u32,
    ) -> (trip: (u16, u16, u16))
        requires
            scene_wf(*self),
            2 <= dimx <= 8192,
            2 <= dimy <= 8192,
            depth <= 4,
            1 <= samples <= 1024,
            (i as int) < (dimx as int) * (dimy as int),
        ensures
            (trip.0 as int, trip.1 as int, trip.2 as int) == pixel_color_spec(
                *self,
                dimx as int,
                dimy as int,
                depth as int,
                samples as int,
                seed,
                i as int,
            ),
    {
        let (p11, q_x, q_y) = self.viewport(dimx, dimy);
        self.pixel_trip(dimx, dimy, depth, samples, seed, i, &p11, &q_x, &q_y)
    }

    /// Render the scene into a flat buffer of 16-bit channel triples, one
    /// per pixel in row-major order, with an explicit seed for the
    /// hemisphere sampling. The output is a function of the arguments alone.
    pub fn render_with_seed(
        &self,
        dimx: u32,
        dimy: u32,
        depth: u8,
        samples: u32,
        seed: u64,
    ) -> (pixels: Vec<u16>)
        requires
            scene_wf(*self),
            2 <= dimx <= 8192,
            2 <= dimy <= 8192,
            depth <= 4,
            1 <= samples <= 1024,
        ensures
            render_ok(
                *self,
                pixels@,
                dimx as int,
                dimy as int,
                depth as int,
                samples as int,
                seed,
            ),
    {
        let (p11, q_x, q_y) = self.viewport(dimx, dimy);
        proof {
            assert((dimx as int) * (dimy as int) <= 0x4000000) by (nonlinear_arith)
                requires 2 <= dimx as int <= 8192, 2 <= dimy as int <= 8192,
            ;
        }
        let num_pix: u32 = dimx * dimy;
        let mut pixels: Vec<u16> = Vec::new();
        let mut i: u32 = 0;
        while i < num_pix
            invariant
                scene_wf(*self),
                2 <= dimx <= 8192,
                2 <= dimy <= 8192,
                depth <= 4,
                1 <= samples <= 1024,
                num_pix == dimx * dimy,
                num_pix <= 0x4000000,
                i <= num_pix,
                (p11@, q_x@, q_y@) == viewport_spec(self.camera, dimx as int, dimy as int),
                bounded3(q_x@, 434336),
                bounded3(q_y@, 14232322048),
                bounded3(p11@, 0x300000000),
                pixels@.len() == 3 * (i as int),
                forall|j: int|
                    0 <= j < i as int ==> (
                    #[trigger] pixels@[3 * j] as int,
                    pixels@[3 * j + 1] as int,
                    pixels@[3 * j + 2] as int,
                ) == pixel_color_spec(
                    *self,
                    dimx as int,
                    dimy as int,
                    depth as int,
                    samples as int,
                    seed,
                    j,
                ),
            decreases num_pix - i,
        {
            let trip = self.pixel_trip(dimx, dimy, depth, samples, seed, i, &p11, &q_x, &q_y);
            pixels.push(trip.0);
            pixels.push(trip.1);
            pixels.push(trip.2);
            i = i + 1;
        }
        pixels
    }

    /// Render the scene with the fixed depth and sample budget of the
    /// offline renderer, seeding the hemisphere sampling from the process's
    /// randomness source: the result is a seeded render for some seed.
    pub fn render_scene(&self, dimx: u32, dimy: u32) -> (pixels: Vec<u16>)
        requires
            scene_wf(*self),
            2 <= dimx <= 8192,
            2 <= dimy <= 8192,
        ensures
            exists|seed: u64|
                render_ok(*self, pixels@, dimx as int, dimy as int, 2, 200, seed),
    {
        let seed: u64 = rand::random::<u64>();
        let pixels = self.render_with_seed(dimx, dimy, 2, 200, seed);
        proof {
            assert(render_ok(*self, pixels@, dimx as int, dimy as int, 2, 200, seed));
        }
        pixels
    }

    pub fn push_shape(&mut self, shape: Shape3D)
        ensures
            final(self).shapes@ == old(self).shapes@.push(shape),
            final(self).camera == old(self).camera,
            final(self).lights == old(self).lights,
    {
        self.shapes.push(shape);
    }
}

} // verus!
