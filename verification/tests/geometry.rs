use rust_tracer::coordinates::{Coordinates2D, Coordinates3D};
use rust_tracer::drawing_2d::{draw_circle, draw_grid, draw_line, draw_rectangle};
use rust_tracer::fixed::{clamp01, fx_div, fx_mul, fx_sqrt, idiv, isqrt64, ONE};
use rust_tracer::intersection::BIAS;
use rust_tracer::line::Line;
use rust_tracer::ray::Ray;
use rust_tracer::shapes::{Cuboid, Plane, Shape3D, Sphere};

fn v(x: i64, y: i64, z: i64) -> Coordinates3D {
    Coordinates3D::new(x, y, z)
}

fn white() -> Coordinates3D {
    v(ONE, ONE, ONE)
}

fn black() -> Coordinates3D {
    v(0, 0, 0)
}

fn axis_ray(origin: Coordinates3D, toward: Coordinates3D) -> Ray {
    Ray::new_from_points(&origin, &toward).expect("ray")
}

#[test]
fn coordinates2d_new_keeps_fields() {
    let c = Coordinates2D::new(3, 9);
    assert_eq!(c.x, 3);
    assert_eq!(c.y, 9);
}

#[test]
fn fixed_point_arithmetic_exact_values() {
    assert_eq!(fx_mul(2 * ONE, 3 * ONE), 6 * ONE);
    assert_eq!(fx_mul(-2 * ONE, 3 * ONE), -6 * ONE);
    assert_eq!(fx_div(6 * ONE, 3 * ONE), 2 * ONE);
    assert_eq!(fx_div(ONE, 205887), 20860);
    assert_eq!(fx_sqrt(4 * ONE), 2 * ONE);
    assert_eq!(fx_sqrt(2 * ONE), 92681);
    assert_eq!(isqrt64(10), 3);
    assert_eq!(isqrt64(0), 0);
    assert_eq!(isqrt64(16), 4);
    // Rust division truncates toward zero
    assert_eq!(idiv(-7, 2), -3);
    assert_eq!(idiv(7, 2), 3);
    assert_eq!(clamp01(-5), 0);
    assert_eq!(clamp01(70000), ONE);
    assert_eq!(clamp01(123), 123);
}

#[test]
fn vector_algebra_exact_values() {
    let a = v(ONE, 2 * ONE, 2 * ONE);
    assert_eq!(a.norm(), 3 * ONE);
    let b = v(3 * ONE, 4 * ONE, 0);
    assert_eq!(b.dist(&v(0, 0, 0)), 5 * ONE);
    assert_eq!(a.dot(&b), 11 * ONE);
    let c = a.add(&b);
    assert_eq!((c.x, c.y, c.z), (4 * ONE, 6 * ONE, 2 * ONE));
    let d = b.sub(&a);
    assert_eq!((d.x, d.y, d.z), (2 * ONE, 2 * ONE, -2 * ONE));
    let s = a.mul(ONE / 2);
    assert_eq!((s.x, s.y, s.z), (ONE / 2, ONE, ONE));
    let x = v(ONE, 0, 0);
    let y = v(0, ONE, 0);
    let z = x.cross(&y);
    assert_eq!((z.x, z.y, z.z), (0, 0, ONE));
}

#[test]
fn normalize_truncates_toward_zero() {
    let u = v(3 * ONE, 4 * ONE, 0).normalize().expect("unit");
    assert_eq!((u.x, u.y, u.z), (39321, 52428, 0));
    assert!(v(0, 0, 0).normalize().is_none());
}

#[test]
fn ray_from_points_precomputes_inverse_and_sign() {
    let r = axis_ray(black(), v(0, 0, 10 * ONE));
    assert_eq!((r.unit_vec.x, r.unit_vec.y, r.unit_vec.z), (0, 0, ONE));
    assert_eq!((r.inverse.x, r.inverse.y, r.inverse.z), (0, 0, ONE));
    assert_eq!(r.sign, [0, 0, 0]);
    let r2 = axis_ray(black(), v(-10 * ONE, 0, 0));
    assert_eq!(r2.unit_vec.x, -ONE);
    assert_eq!(r2.inverse.x, -ONE);
    assert_eq!(r2.sign, [1, 0, 0]);
    // two coincident points carry no direction
    assert!(Ray::new_from_points(&v(ONE, ONE, ONE), &v(ONE, ONE, ONE)).is_none());
}

#[test]
fn sphere_head_on_hit_distance_and_normal() {
    let s = Sphere::new(v(0, 0, 10 * ONE), 2 * ONE, white(), black(), ONE, 0);
    let r = axis_ray(black(), v(0, 0, 10 * ONE));
    let hit = s.ray_closest_intersections(&r).expect("hit");
    assert_eq!(hit.distance, 8 * ONE);
    assert_eq!((hit.location.x, hit.location.y, hit.location.z), (0, 0, 8 * ONE));
    assert_eq!((hit.normal.x, hit.normal.y, hit.normal.z), (0, 0, -ONE));
    // the biased location backs off the surface along the normal
    assert_eq!(hit.biased_location.z, 8 * ONE - BIAS);
}

#[test]
fn sphere_perpendicular_ray_misses() {
    let s = Sphere::new(v(0, 3 * ONE, 0), 2 * ONE, white(), black(), ONE, 0);
    let r = axis_ray(black(), v(10 * ONE, 0, 0));
    assert!(s.ray_closest_intersections(&r).is_none());
}

#[test]
fn sphere_behind_ray_misses() {
    let s = Sphere::new(v(0, 0, -10 * ONE), 2 * ONE, white(), black(), ONE, 0);
    let r = axis_ray(black(), v(0, 0, 10 * ONE));
    assert!(s.ray_closest_intersections(&r).is_none());
}

#[test]
fn sphere_tangent_ray_reports_no_hit() {
    let s = Sphere::new(v(2 * ONE, 0, 10 * ONE), 2 * ONE, white(), black(), ONE, 0);
    let r = axis_ray(black(), v(0, 0, 10 * ONE));
    assert!(s.ray_closest_intersections(&r).is_none());
}

#[test]
fn plane_parallel_ray_misses() {
    let p = Plane::new(v(0, -ONE, 0), v(0, ONE, 0), white(), ONE);
    let r = axis_ray(black(), v(10 * ONE, 0, 0));
    assert!(p.ray_closest_intersections(&r).is_none());
}

#[test]
fn plane_hit_normal_faces_the_ray() {
    let p = Plane::new(v(0, -ONE, 0), v(0, ONE, 0), white(), ONE);
    let r = axis_ray(black(), v(0, -10 * ONE, 0));
    let hit = p.ray_closest_intersections(&r).expect("hit");
    assert_eq!(hit.distance, ONE);
    assert_eq!((hit.location.x, hit.location.y, hit.location.z), (0, -ONE, 0));
    assert_eq!((hit.normal.x, hit.normal.y, hit.normal.z), (0, ONE, 0));
    assert!(r.unit_vec.dot(&hit.normal) < 0);
    // approaching from below, the reported normal flips
    let r_up = axis_ray(v(0, -10 * ONE, 0), v(0, 10 * ONE, 0));
    let hit_up = p.ray_closest_intersections(&r_up).expect("hit");
    assert_eq!((hit_up.normal.x, hit_up.normal.y, hit_up.normal.z), (0, -ONE, 0));
    assert!(r_up.unit_vec.dot(&hit_up.normal) < 0);
    // a plane behind the ray origin reports nothing
    let r_away = axis_ray(black(), v(0, 10 * ONE, 0));
    assert!(p.ray_closest_intersections(&r_away).is_none());
}

#[test]
fn cuboid_axis_ray_hits_near_face() {
    let c = Cuboid::new(
        v(10 * ONE, 0, 0),
        [v(-ONE, -ONE, -ONE), v(ONE, ONE, ONE)],
        white(),
        black(),
        ONE,
        0,
    );
    let r = axis_ray(black(), v(10 * ONE, 0, 0));
    let hit = c.ray_closest_intersections(&r).expect("hit");
    assert_eq!(hit.distance, 9 * ONE);
    assert_eq!((hit.normal.x, hit.normal.y, hit.normal.z), (-ONE, 0, 0));
    // pointed the other way, the same box is missed
    let r_away = axis_ray(black(), v(-10 * ONE, 0, 0));
    assert!(c.ray_closest_intersections(&r_away).is_none());
    // from above along -y, the top face answers
    let r_down = axis_ray(v(10 * ONE, 10 * ONE, 0), v(10 * ONE, 0, 0));
    let hit_down = c.ray_closest_intersections(&r_down).expect("hit");
    assert_eq!(hit_down.distance, 9 * ONE);
    assert_eq!((hit_down.normal.x, hit_down.normal.y, hit_down.normal.z), (0, ONE, 0));
}

#[test]
fn shape_dispatch_matches_variants() {
    let sp = Shape3D::Sphere(Sphere::new(v(0, 0, 10 * ONE), 2 * ONE, white(), v(ONE / 2, 0, 0), ONE / 2, ONE / 4));
    assert_eq!(sp.get_albedo(), ONE / 2);
    assert_eq!(sp.get_reflectivity(), ONE / 4);
    assert_eq!(sp.get_emissive_color().x, ONE / 2);
    let pl = Shape3D::Plane(Plane::new(v(0, -ONE, 0), v(0, ONE, 0), white(), ONE));
    assert_eq!(pl.get_reflectivity(), 0);
    assert_eq!(pl.get_emissive_color().y, 0);
    let r = axis_ray(black(), v(0, 0, 10 * ONE));
    assert!(sp.ray_closest_intersections(&r).is_some());
}

#[test]
fn standalone_line_sphere_roots_are_both_reported() {
    let s = rust_tracer::raytracer::Sphere::new(v(0, 0, 10 * ONE), 2 * ONE);
    let l = Line::new_from_points(&black(), &v(0, 0, 10 * ONE)).expect("line");
    let roots = s.intersect_sphere(&l).expect("roots");
    assert_eq!(roots.len(), 2);
    assert_eq!(roots[0].1, 12 * ONE);
    assert_eq!(roots[1].1, 8 * ONE);
    assert_eq!(roots[1].0.z, 8 * ONE);
    // a line clear of the sphere reports nothing
    let l_miss = Line::new_from_points(&v(0, 5 * ONE, 0), &v(10 * ONE, 5 * ONE, 0)).expect("line");
    assert!(s.intersect_sphere(&l_miss).is_none());
}

#[test]
fn standalone_calcul_line_vec_normalizes() {
    let u = rust_tracer::raytracer::calcul_line_vec(&black(), &v(3 * ONE, 4 * ONE, 0)).expect("unit");
    assert_eq!((u.x, u.y, u.z), (39321, 52428, 0));
}

#[test]
fn rectangle_pixels_column_major() {
    let px = draw_rectangle(Coordinates2D::new(2, 3), Coordinates2D::new(5, 7));
    assert_eq!(px.len(), 6);
    let got: Vec<(u32, u32)> = px.iter().map(|p| (p.x, p.y)).collect();
    assert_eq!(got, vec![(5, 7), (5, 8), (5, 9), (6, 7), (6, 8), (6, 9)]);
}

#[test]
fn circle_pixels_mirror_eightfold() {
    let px = draw_circle(5, Coordinates2D::new(10, 10));
    assert_eq!(px.len(), 40);
    assert_eq!((px[0].x, px[0].y), (10, 15));
    assert_eq!((px[1].x, px[1].y), (10, 5));
    assert_eq!((px[4].x, px[4].y), (15, 10));
    assert_eq!((px[6].x, px[6].y), (5, 10));
    // the step at offset 3 sits at height isqrt(25 - 9) = 4
    assert_eq!((px[24].x, px[24].y), (13, 14));
}

#[test]
fn line_pixels_follow_the_exact_slope() {
    let px = draw_line(Coordinates2D::new(0, 0), Coordinates2D::new(4, 2));
    let got: Vec<(u32, u32)> = px.iter().map(|p| (p.x, p.y)).collect();
    assert_eq!(got, vec![(0, 0), (1, 0), (2, 1), (3, 1), (4, 2)]);
    // a steep line steps along y
    let steep = draw_line(Coordinates2D::new(2, 5), Coordinates2D::new(3, 1));
    let got2: Vec<(u32, u32)> = steep.iter().map(|p| (p.x, p.y)).collect();
    assert_eq!(got2, vec![(2, 5), (2, 4), (2, 3), (2, 2), (3, 1)]);
    // a degenerate line is a single pixel
    let dot = draw_line(Coordinates2D::new(9, 9), Coordinates2D::new(9, 9));
    assert_eq!(dot.len(), 1);
    assert_eq!((dot[0].x, dot[0].y), (9, 9));
}

#[test]
fn grid_pixels_cover_stops_then_rows() {
    let px = draw_grid(4, 3, 2);
    assert_eq!(px.len(), 14);
    let got: Vec<(u32, u32)> = px.iter().map(|p| (p.x, p.y)).collect();
    assert_eq!(
        got,
        vec![
            (0, 0), (0, 1), (0, 2), (2, 0), (2, 1), (2, 2),
            (0, 0), (1, 0), (2, 0), (3, 0), (0, 2), (1, 2), (2, 2), (3, 2),
        ],
    );
}
