use raytracer::fx::SCALE;
use raytracer::vec3::Vec3;
use raytracer::ray::Ray;
use raytracer::aabb::AABB;
use raytracer::collider::{Geometry, GeometryType, SceneColliders, Axis, medium_hit_time};
use raytracer::material::{Material, MaterialType};
use raytracer::texture::Texture;

fn gray(v: i128) -> Material {
    Material::lambertian(Texture::solid_color(Vec3::new(v, v, v)))
}

fn ray(o: (i128, i128, i128), d: (i128, i128, i128)) -> Ray {
    Ray::new(Vec3::new(o.0, o.1, o.2), Vec3::new(d.0, d.1, d.2), 0)
}

const WMAX: i128 = 17179869184;

#[test]
fn surrounding_box_contains_both_inputs() {
    let a = AABB::new(Vec3::new(-SCALE, 0, 0), Vec3::new(SCALE, SCALE, SCALE));
    let b = AABB::new(Vec3::new(0, -2 * SCALE, 0), Vec3::new(3 * SCALE, SCALE, 2 * SCALE));
    let u = AABB::surrounding_box(a, b);
    assert!(u.minimum.x <= a.minimum.x && u.minimum.x <= b.minimum.x);
    assert!(u.minimum.y <= a.minimum.y && u.minimum.y <= b.minimum.y);
    assert!(u.minimum.z <= a.minimum.z && u.minimum.z <= b.minimum.z);
    assert!(u.maximum.x >= a.maximum.x && u.maximum.x >= b.maximum.x);
    assert!(u.maximum.y >= a.maximum.y && u.maximum.y >= b.maximum.y);
    assert!(u.maximum.z >= a.maximum.z && u.maximum.z >= b.maximum.z);
    assert_eq!(u.minimum.x, -SCALE);
    assert_eq!(u.maximum.x, 3 * SCALE);
}

#[test]
fn slab_test_is_symmetric_under_direction_flip() {
    let b = AABB::new(
        Vec3::new(-SCALE, -SCALE, -SCALE),
        Vec3::new(SCALE, SCALE, SCALE),
    );
    let cases = [
        ((0, 0, 5 * SCALE), (0, 0, -SCALE)),
        ((3 * SCALE, 0, 5 * SCALE), (0, 0, -SCALE)),
        ((0, SCALE / 2, 5 * SCALE), (SCALE / 10, 0, -SCALE)),
        ((2 * SCALE, 2 * SCALE, 2 * SCALE), (-SCALE, -SCALE, -SCALE)),
    ];
    for (o, d) in cases {
        let fwd = b.intersect(ray(o, d), 66, 100 * SCALE);
        let back = b.intersect(
            ray(o, (-d.0, -d.1, -d.2)),
            -100 * SCALE,
            -66,
        );
        assert_eq!(fwd, back, "flip symmetry failed for {o:?} {d:?}");
    }
}

#[test]
fn axis_parallel_rays_graze_boxes_correctly() {
    let b = AABB::new(
        Vec3::new(-SCALE, -SCALE, -SCALE),
        Vec3::new(SCALE, SCALE, SCALE),
    );
    // origin inside the slab on the zero-direction axis: hit
    assert!(b.intersect(ray((0, 0, 5 * SCALE), (0, 0, -SCALE)), 66, 100 * SCALE));
    // origin outside the slab on the zero-direction axis: miss
    assert!(!b.intersect(ray((3 * SCALE, 0, 5 * SCALE), (0, 0, -SCALE)), 66, 100 * SCALE));
}

#[test]
fn sphere_through_center_has_equidistant_roots() {
    // |O - C| = 10, r = 2: near root at 8, far root at 12.
    let s = Geometry::sphere(Vec3::new(0, 0, -10 * SCALE), 2 * SCALE, gray(SCALE / 2));
    let h = s
        .intersect(ray((0, 0, 0), (0, 0, -SCALE)), 66, WMAX)
        .expect("front hit");
    assert_eq!(h.t, 8 * SCALE);
    // beyond the near root the far root is reported
    let h2 = s
        .intersect(ray((0, 0, 0), (0, 0, -SCALE)), 9 * SCALE, WMAX)
        .expect("far hit");
    assert_eq!(h2.t, 12 * SCALE);
}

#[test]
fn ray_from_inside_a_sphere_hits_the_far_root() {
    let s = Geometry::sphere(Vec3::new(0, 0, 0), 2 * SCALE, gray(SCALE / 2));
    let h = s
        .intersect(ray((0, 0, 0), (0, 0, -SCALE)), 66, WMAX)
        .expect("a ray from the center must not miss");
    assert_eq!(h.t, 2 * SCALE);
    assert!(!h.front_face);
}

#[test]
fn sphere_normals_follow_the_radius_sign() {
    let s = Geometry::sphere(Vec3::new(0, 0, -5 * SCALE), SCALE, gray(SCALE / 2));
    let h = s.intersect(ray((0, 0, 0), (0, 0, -SCALE)), 66, WMAX).unwrap();
    assert_eq!((h.normal.x, h.normal.y, h.normal.z), (0, 0, SCALE));
    assert!(h.front_face);
    let hollow = Geometry::sphere(Vec3::new(0, 0, -5 * SCALE), -SCALE, gray(SCALE / 2));
    let h2 = hollow.intersect(ray((0, 0, 0), (0, 0, -SCALE)), 66, WMAX).unwrap();
    assert_eq!((h2.normal.x, h2.normal.y, h2.normal.z), (0, 0, SCALE));
    assert!(!h2.front_face);
}

#[test]
fn rectangles_report_plane_crossings_and_surface_coordinates() {
    let r0 = Geometry::xyrect(-SCALE, SCALE, -SCALE, SCALE, -4 * SCALE, gray(SCALE / 2));
    let h = r0.intersect(ray((0, 0, 0), (0, 0, -SCALE)), 66, WMAX).expect("hit");
    assert_eq!(h.t, 4 * SCALE);
    assert_eq!(h.u, SCALE / 2);
    assert_eq!(h.v, SCALE / 2);
    assert!(r0.intersect(ray((5 * SCALE, 0, 0), (0, 0, -SCALE)), 66, WMAX).is_none());
    assert!(r0.intersect(ray((0, 0, 0), (0, -SCALE, 0)), 66, WMAX).is_none());
}

#[test]
fn cuboid_scans_its_six_sides() {
    let c = Geometry::cuboid(
        Vec3::new(-SCALE, -SCALE, -6 * SCALE),
        Vec3::new(SCALE, SCALE, -4 * SCALE),
        gray(SCALE / 2),
    );
    assert!(matches!(c.geometry_type(), GeometryType::Cuboid));
    let h = c.intersect(ray((0, 0, 0), (0, 0, -SCALE)), 66, WMAX).expect("hit");
    assert_eq!(h.t, 4 * SCALE);
    assert!(c.intersect(ray((5 * SCALE, 0, 0), (0, 0, -SCALE)), 66, WMAX).is_none());
}

#[test]
fn triangle_accepts_inside_and_rejects_outside() {
    let t = Geometry::triangle(
        Vec3::new(-SCALE, -SCALE, -3 * SCALE),
        Vec3::new(SCALE, -SCALE, -3 * SCALE),
        Vec3::new(0, SCALE, -3 * SCALE),
        gray(SCALE / 2),
    );
    let h = t.intersect(ray((0, 0, 0), (0, 0, -SCALE)), 66, WMAX);
    assert!(h.is_some());
    assert_eq!(h.unwrap().t, 3 * SCALE);
    assert!(t.intersect(ray((3 * SCALE, 0, 0), (0, 0, -SCALE)), 66, WMAX).is_none());
}

#[test]
fn translation_shifts_hits_back_into_world_space() {
    let s = Geometry::sphere(Vec3::new(0, 0, -5 * SCALE), SCALE, gray(SCALE / 2));
    let moved = Geometry::instance_translation(s, Vec3::new(3 * SCALE, 0, 0));
    assert!(moved.intersect(ray((0, 0, 0), (0, 0, -SCALE)), 66, WMAX).is_none());
    let h = moved
        .intersect(ray((3 * SCALE, 0, 0), (0, 0, -SCALE)), 66, WMAX)
        .expect("hit through the displaced center");
    assert_eq!(h.t, 4 * SCALE);
    assert_eq!(h.point.x, 3 * SCALE);
}

#[test]
fn rotation_round_trip_reproduces_the_unrotated_hit() {
    let mk = || {
        Geometry::cuboid(
            Vec3::new(-SCALE, -SCALE, -6 * SCALE),
            Vec3::new(SCALE, SCALE, -4 * SCALE),
            gray(SCALE / 2),
        )
    };
    let plain_hit = mk().intersect(ray((0, 0, 0), (0, 0, -SCALE)), 66, WMAX).unwrap();
    let theta = 37 * SCALE;
    let round = Geometry::instance_rotation(
        Geometry::instance_rotation(mk(), Axis::Y, theta),
        Axis::Y,
        -theta,
    );
    let h = round
        .intersect(ray((0, 0, 0), (0, 0, -SCALE)), 66, WMAX)
        .expect("round-trip rotation must keep the hit");
    let tol = SCALE / 50;
    assert!((h.t - plain_hit.t).abs() <= tol, "t {} vs {}", h.t, plain_hit.t);
    assert!((h.point.z - plain_hit.point.z).abs() <= tol);
}

#[test]
fn rotation_moves_the_hit_parameter_as_expected() {
    let s = Geometry::sphere(Vec3::new(4 * SCALE, 0, 0), SCALE, gray(SCALE / 2));
    // rotate the sphere a quarter turn about y: it moves from +x to -z.
    let r90 = Geometry::instance_rotation(s, Axis::Y, 90 * SCALE);
    let h = r90.intersect(ray((0, 0, 0), (0, 0, -SCALE)), 66, WMAX);
    assert!(h.is_some(), "rotated sphere should sit on the -z axis");
}

#[test]
fn scene_scan_returns_the_nearest_of_several_objects() {
    let mut scene = SceneColliders::new();
    scene.add(Geometry::sphere(Vec3::new(0, 0, -9 * SCALE), SCALE, gray(SCALE / 4)));
    scene.add(Geometry::sphere(Vec3::new(0, 0, -5 * SCALE), SCALE, gray(SCALE / 2)));
    scene.add(Geometry::sphere(Vec3::new(0, 0, -14 * SCALE), SCALE, gray(SCALE)));
    let h = scene.intersect(ray((0, 0, 0), (0, 0, -SCALE)), 66, WMAX).expect("hit");
    assert_eq!(h.t, 4 * SCALE);
    assert!(scene.intersect(ray((0, 5 * SCALE, 0), (0, SCALE, 0)), 66, WMAX).is_none());
}

#[test]
fn empty_scene_reports_no_hit_and_no_box() {
    let scene = SceneColliders::new();
    assert!(scene.intersect(ray((0, 0, 0), (0, 0, -SCALE)), 66, WMAX).is_none());
    assert!(scene.bounding_box(0, SCALE).is_none());
}

#[test]
fn bounding_boxes_wrap_their_shapes() {
    let s = Geometry::sphere(Vec3::new(SCALE, 2 * SCALE, 3 * SCALE), SCALE, gray(1));
    let b = s.bounding_box(0, SCALE).unwrap();
    assert_eq!(b.minimum.x, 0);
    assert_eq!(b.maximum.y, 3 * SCALE);
    let m = Geometry::moving_sphere(
        Vec3::new(0, 0, 0),
        Vec3::new(2 * SCALE, 0, 0),
        0,
        SCALE,
        SCALE,
        gray(1),
    );
    let mb = m.bounding_box(0, SCALE).unwrap();
    assert_eq!(mb.minimum.x, -SCALE);
    assert_eq!(mb.maximum.x, 3 * SCALE);
}

#[test]
fn moving_sphere_follows_the_ray_time() {
    let m = Geometry::moving_sphere(
        Vec3::new(0, 0, -5 * SCALE),
        Vec3::new(4 * SCALE, 0, -5 * SCALE),
        0,
        SCALE,
        SCALE,
        gray(1),
    );
    let at_start = Ray::new(Vec3::new(0, 0, 0), Vec3::new(0, 0, -SCALE), 0);
    assert!(m.intersect(at_start, 66, WMAX).is_some());
    let at_end = Ray::new(Vec3::new(0, 0, 0), Vec3::new(0, 0, -SCALE), SCALE);
    assert!(m.intersect(at_end, 66, WMAX).is_none());
    let shifted = Ray::new(Vec3::new(4 * SCALE, 0, 0), Vec3::new(0, 0, -SCALE), SCALE);
    assert!(m.intersect(shifted, 66, WMAX).is_some());
}

#[test]
fn medium_free_flight_decision_is_exact() {
    // passage [0, 4] at unit speed, moderate density, a short sampled
    // flight (a draw near one gives a near-zero negative log)
    let nid: i128 = -(SCALE as i128);
    let hit = medium_hit_time(0, 4 * SCALE, 66, WMAX, SCALE, nid, 65500);
    let t = hit.expect("a short flight inside the passage must scatter");
    assert!(66 <= t && t <= 4 * SCALE);
    // the same density with a long sampled flight passes through
    assert!(medium_hit_time(0, 4 * SCALE, 66, WMAX, SCALE, nid, 100).is_none());
    // flight distance beyond the passage: no hit
    let nid_thin: i128 = -4294967296;
    let miss = medium_hit_time(0, SCALE / 4, 66, WMAX, SCALE, nid_thin, 100);
    assert!(miss.is_none());
}

#[test]
fn medium_hit_probability_vanishes_with_density() {
    // nearly zero density: over a uniform sweep of the random input, the
    // sampled flight almost always exceeds one unit inside the volume.
    let nid_thin: i128 = -4294967296;
    let mut hits = 0u32;
    let mut total = 0u32;
    let mut u: i128 = 0;
    while u < SCALE {
        if medium_hit_time(0, SCALE, 66, WMAX, SCALE, nid_thin, u).is_some() {
            hits += 1;
        }
        total += 1;
        u += 64;
    }
    assert!(total > 1000);
    assert!(
        (hits as f64) / (total as f64) < 0.01,
        "thin medium hit ratio {hits}/{total}"
    );
    // a dense medium over the same sweep scatters most rays
    let nid_dense: i128 = -(SCALE / 8);
    let mut dense_hits = 0u32;
    let mut u2: i128 = 0;
    while u2 < SCALE {
        if medium_hit_time(0, SCALE, 66, WMAX, SCALE, nid_dense, u2).is_some() {
            dense_hits += 1;
        }
        u2 += 64;
    }
    assert!(dense_hits > hits, "density must raise the hit rate");
}

#[test]
fn constant_medium_scatters_inside_its_boundary() {
    let boundary = Geometry::sphere(Vec3::new(0, 0, -5 * SCALE), 2 * SCALE, gray(SCALE));
    let fog = Geometry::constant_medium(boundary, 8 * SCALE, Vec3::new(SCALE, SCALE, SCALE));
    let mut scattered = 0;
    for _ in 0..64 {
        if let Some(h) = fog.intersect(ray((0, 0, 0), (0, 0, -SCALE)), 66, WMAX) {
            assert!(h.t >= 3 * SCALE - SCALE / 16 && h.t <= 7 * SCALE + SCALE / 16);
            scattered += 1;
        }
    }
    assert!(scattered > 0, "a dense fog should scatter at least once in 64 rays");
}

#[test]
fn moving_spheres_carry_surface_coordinates() {
    // a moving sphere hit reports the same surface coordinates as a
    // stationary sphere at the interpolated center
    let m = Geometry::moving_sphere(
        Vec3::new(0, 0, -5 * SCALE),
        Vec3::new(4 * SCALE, 0, -5 * SCALE),
        0,
        SCALE,
        SCALE,
        gray(1),
    );
    let hm = m.intersect(ray((0, 0, 0), (0, 0, -SCALE)), 66, WMAX).expect("hit at shutter open");
    let s = Geometry::sphere(Vec3::new(0, 0, -5 * SCALE), SCALE, gray(1));
    let hs = s.intersect(ray((0, 0, 0), (0, 0, -SCALE)), 66, WMAX).expect("hit");
    assert_eq!((hm.u, hm.v), (hs.u, hs.v));
    assert!(hm.u != 0 || hm.v != 0, "surface coordinates must be computed");
}

#[test]
fn minimal_shutter_spans_are_accepted() {
    // a one-tick shutter interval is enough for a moving sphere
    let m = Geometry::moving_sphere(
        Vec3::new(0, 0, -5 * SCALE),
        Vec3::new(0, SCALE, -5 * SCALE),
        0,
        1,
        SCALE,
        gray(1),
    );
    assert!(m.intersect(ray((0, 0, 0), (0, 0, -SCALE)), 66, WMAX).is_some());
}
