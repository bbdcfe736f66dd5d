use rust_tracer::camera::Camera;
use rust_tracer::coordinates::Coordinates3D;
use rust_tracer::distant_light::DistantLight;
use rust_tracer::fixed::ONE;
use rust_tracer::ray::Ray;
use rust_tracer::scene::Scene;
use rust_tracer::shapes::{Plane, Shape3D, Sphere};

fn v(x: i64, y: i64, z: i64) -> Coordinates3D {
    Coordinates3D::new(x, y, z)
}

fn white() -> Coordinates3D {
    v(ONE, ONE, ONE)
}

fn black() -> Coordinates3D {
    v(0, 0, 0)
}

fn camera_at_origin() -> Camera {
    Camera { cam_orient: v(0, 0, ONE), cam_pos: black(), up_vec: v(0, ONE, 0) }
}

fn down_ray() -> Ray {
    Ray::new_from_points(&black(), &v(0, -10 * ONE, 0)).expect("ray")
}

fn floor_plane() -> Shape3D {
    Shape3D::Plane(Plane::new(v(0, -ONE, 0), v(0, ONE, 0), white(), ONE))
}

fn downward_light() -> DistantLight {
    DistantLight { direction: v(0, -ONE, 0), intensity: ONE }
}

#[test]
fn trace_depth_zero_returns_emissive_alone_without_lights() {
    let scene = Scene {
        camera: camera_at_origin(),
        shapes: vec![Shape3D::Sphere(Sphere::new(
            v(0, 0, 10 * ONE),
            2 * ONE,
            white(),
            v(ONE / 2, 0, ONE / 4),
            ONE,
            0,
        ))],
        lights: vec![],
    };
    let ray = Ray::new_from_points(&black(), &v(0, 0, 10 * ONE)).expect("ray");
    let c = scene.trace_ray(&ray, 0, 1, 7);
    assert_eq!((c.x, c.y, c.z), (ONE / 2, 0, ONE / 4));
}

#[test]
fn trace_miss_returns_zero_radiance() {
    let scene = Scene {
        camera: camera_at_origin(),
        shapes: vec![floor_plane()],
        lights: vec![downward_light()],
    };
    let ray = Ray::new_from_points(&black(), &v(0, 10 * ONE, 0)).expect("ray");
    let c = scene.trace_ray(&ray, 0, 1, 7);
    assert_eq!((c.x, c.y, c.z), (0, 0, 0));
}

#[test]
fn direct_lighting_formula_head_on() {
    // albedo / pi at full albedo and unit intensity, cosine exactly one:
    // the shading coefficient is ONE * ONE / 205887 = 20860
    let scene = Scene {
        camera: camera_at_origin(),
        shapes: vec![floor_plane()],
        lights: vec![downward_light()],
    };
    let c = scene.trace_ray(&down_ray(), 0, 1, 7);
    assert_eq!((c.x, c.y, c.z), (20860, 20860, 20860));
}

#[test]
fn shadowed_light_contributes_nothing() {
    // the same floor, with a sphere hanging between it and the light
    let scene = Scene {
        camera: camera_at_origin(),
        shapes: vec![
            floor_plane(),
            Shape3D::Sphere(Sphere::new(v(0, 5 * ONE, 0), ONE, white(), black(), ONE, 0)),
        ],
        lights: vec![downward_light()],
    };
    let c = scene.trace_ray(&down_ray(), 0, 1, 7);
    assert_eq!((c.x, c.y, c.z), (0, 0, 0));
}

#[test]
fn grazing_light_contributes_nothing() {
    // a light sweeping parallel to the floor arrives at ninety degrees
    let scene = Scene {
        camera: camera_at_origin(),
        shapes: vec![floor_plane()],
        lights: vec![DistantLight { direction: v(-ONE, 0, 0), intensity: ONE }],
    };
    let c = scene.trace_ray(&down_ray(), 0, 1, 7);
    assert_eq!((c.x, c.y, c.z), (0, 0, 0));
}

#[test]
fn reflection_adds_scaled_mirror_radiance() {
    // a mirror floor under an emissive ceiling sphere: with the depth budget
    // spent the floor is dark; with one bounce it carries half the emissive
    let emissive_ceiling = Shape3D::Sphere(Sphere::new(
        v(0, 6 * ONE, 0),
        2 * ONE,
        white(),
        v(ONE, ONE, ONE),
        0,
        0,
    ));
    let reflective_floor = Shape3D::Cuboid(rust_tracer::shapes::Cuboid::new(
        v(0, -2 * ONE, 0),
        [v(-8 * ONE, -ONE, -8 * ONE), v(8 * ONE, ONE, 8 * ONE)],
        white(),
        black(),
        0,
        ONE / 2,
    ));
    let scene2 = Scene {
        camera: camera_at_origin(),
        shapes: vec![reflective_floor, emissive_ceiling],
        lights: vec![],
    };
    let dark = scene2.trace_ray(&down_ray(), 0, 1, 7);
    assert_eq!((dark.x, dark.y, dark.z), (0, 0, 0));
    let lit = scene2.trace_ray(&down_ray(), 1, 1, 7);
    assert!(lit.y > 0);
    assert_eq!(lit.y, lit.x);
    // half reflectivity halves the mirrored radiance: the ceiling's emissive
    // white comes back at ONE / 2 per channel
    assert_eq!(lit.y, ONE / 2);
}

#[test]
fn low_resolution_render_lights_the_upper_hemisphere() {
    // one matte sphere ahead of the camera, lit from straight above
    let scene = Scene {
        camera: camera_at_origin(),
        shapes: vec![Shape3D::Sphere(Sphere::new(
            v(0, 0, 6 * ONE),
            2 * ONE,
            white(),
            black(),
            ONE,
            0,
        ))],
        lights: vec![downward_light()],
    };
    let px = scene.render_with_seed(4, 4, 0, 1, 42);
    assert_eq!(px.len(), 48);
    let chan = |x: usize, y: usize| px[3 * (y * 4 + x)];
    // corners look past the sphere: zero radiance
    assert_eq!(chan(0, 0), 0);
    assert_eq!(chan(3, 0), 0);
    assert_eq!(chan(0, 3), 0);
    assert_eq!(chan(3, 3), 0);
    // the upper hemisphere is strictly brighter than the lower
    assert!(chan(1, 1) > chan(1, 2));
    assert!(chan(2, 1) > chan(2, 2));
    assert_eq!(chan(1, 2), 0);
    // grey channels agree on a white sphere
    assert_eq!(px[3 * (1 * 4 + 1)], px[3 * (1 * 4 + 1) + 2]);
}

#[test]
fn renders_with_equal_seeds_are_pixel_identical() {
    let scene = Scene {
        camera: camera_at_origin(),
        shapes: vec![
            Shape3D::Sphere(Sphere::new(v(0, 0, 6 * ONE), 2 * ONE, white(), black(), ONE, ONE / 4)),
            floor_plane(),
        ],
        lights: vec![downward_light()],
    };
    let a = scene.render_with_seed(4, 4, 2, 4, 12345);
    let b = scene.render_with_seed(4, 4, 2, 4, 12345);
    assert_eq!(a, b);
}

#[test]
fn push_shape_appends() {
    let mut scene = Scene { camera: camera_at_origin(), shapes: vec![], lights: vec![] };
    scene.push_shape(floor_plane());
    scene.push_shape(Shape3D::Sphere(Sphere::new(v(0, 0, 6 * ONE), ONE, white(), black(), ONE, 0)));
    assert_eq!(scene.shapes.len(), 2);
}

#[test]
fn seeded_render_from_thread_randomness_has_full_size() {
    let scene = Scene {
        camera: camera_at_origin(),
        shapes: vec![],
        lights: vec![downward_light()],
    };
    let px = scene.render_scene(2, 2);
    assert_eq!(px.len(), 12);
    assert!(px.iter().all(|&c| c == 0));
}

#[test]
fn rng_stream_is_the_documented_recurrence() {
    assert_eq!(rust_tracer::rng::next_state(0), 1442695040888963407);
    assert_eq!(rust_tracer::rng::next_state(1), 7806831264735756412);
    assert_eq!(rust_tracer::rng::variate(0), -131070);
    let d = rust_tracer::utils::uniform_sampling_hemisphere(0, 0, 0);
    assert_eq!((d.x, d.y, d.z), (-37837, 37837, -37837));
    assert!(d.y >= 0);
}

#[test]
fn basis_surrounds_the_up_vector() {
    let basis = rust_tracer::utils::create_coordinate_system_from_up_vector(&v(0, ONE, 0));
    // dominant axis is y, so the tangent lives in the y-z plane rotated away
    assert_eq!((basis[1].x, basis[1].y, basis[1].z), (0, ONE, 0));
    // the basis vectors are mutually orthogonal
    assert_eq!(basis[0].dot(&basis[1]), 0);
    assert_eq!(basis[1].dot(&basis[2]), 0);
}
