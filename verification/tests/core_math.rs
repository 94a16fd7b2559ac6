use raytracer::fx::{fx_mul, fx_div, fx_sqrt, fx_min, fx_max, fx_abs, fx_floor, SCALE, PI_FX};
use raytracer::trig::{fx_sin, fx_cos, fx_tan, fx_atan2, fx_neg_ln_unit, HALF_PI_FX, LN2_FX};
use raytracer::utils::{random, randrange, randint, randuint, clamp, to_radians};
use raytracer::vec3::{Vec3, reflect, refract, random_in_unit_sphere, random_in_unit_disk, random_unit_vec3, random_in_hemisphere};

#[test]
fn fixed_point_products_are_exact_on_integers() {
    assert_eq!(fx_mul(3 * SCALE, 4 * SCALE), 12 * SCALE);
    assert_eq!(fx_mul(-3 * SCALE, 4 * SCALE), -12 * SCALE);
    assert_eq!(fx_mul(SCALE / 2, SCALE / 2), SCALE / 4);
    assert_eq!(fx_mul(123456, 0), 0);
}

#[test]
fn fixed_point_division_truncates_toward_zero() {
    assert_eq!(fx_div(SCALE, 2 * SCALE), SCALE / 2);
    assert_eq!(fx_div(-SCALE, 2 * SCALE), -(SCALE / 2));
    assert_eq!(fx_div(7 * SCALE, 2 * SCALE), 7 * SCALE / 2);
    assert_eq!(fx_div(SCALE, -2 * SCALE), -(SCALE / 2));
}

#[test]
fn square_roots_are_exact_on_perfect_squares() {
    assert_eq!(fx_sqrt(SCALE), SCALE);
    assert_eq!(fx_sqrt(4 * SCALE), 2 * SCALE);
    assert_eq!(fx_sqrt(0), 0);
    assert_eq!(fx_sqrt(9 * SCALE), 3 * SCALE);
}

#[test]
fn floor_rounds_toward_negative_infinity() {
    assert_eq!(fx_floor(3 * SCALE + 17), 3 * SCALE);
    assert_eq!(fx_floor(-3 * SCALE - 17), -4 * SCALE);
    assert_eq!(fx_floor(0), 0);
}

#[test]
fn min_max_abs() {
    assert_eq!(fx_min(3, -7), -7);
    assert_eq!(fx_max(3, -7), 3);
    assert_eq!(fx_abs(-42), 42);
    assert_eq!(fx_abs(42), 42);
}

#[test]
fn clamp_matches_its_contract() {
    assert_eq!(clamp(5, 0, 10), 5);
    assert_eq!(clamp(-5, 0, 10), 0);
    assert_eq!(clamp(15, 0, 10), 10);
}

#[test]
fn to_radians_of_180_degrees_is_pi() {
    let r = to_radians(180 * SCALE);
    assert!((r - PI_FX).abs() <= 2, "got {r}");
}

#[test]
fn sine_hits_known_values() {
    assert_eq!(fx_sin(0), 0);
    let s90 = fx_sin(HALF_PI_FX);
    assert!((s90 - SCALE).abs() <= 200, "sin(pi/2) = {s90}");
    let s30 = fx_sin(PI_FX / 6);
    assert!((s30 - SCALE / 2).abs() <= 200, "sin(pi/6) = {s30}");
    let sm90 = fx_sin(-HALF_PI_FX);
    assert!((sm90 + SCALE).abs() <= 200, "sin(-pi/2) = {sm90}");
}

#[test]
fn cosine_and_tangent_hit_known_values() {
    let c0 = fx_cos(0);
    assert!((c0 - SCALE).abs() <= 200, "cos(0) = {c0}");
    let t45 = fx_tan(PI_FX / 4);
    assert!((t45 - SCALE).abs() <= 900, "tan(pi/4) = {t45}");
}

#[test]
fn atan2_covers_the_quadrants() {
    assert_eq!(fx_atan2(0, 0), 0);
    let a = fx_atan2(SCALE, SCALE);
    assert!((a - PI_FX / 4).abs() <= 400, "atan2(1,1) = {a}");
    let b = fx_atan2(SCALE, -SCALE);
    assert!((b - 3 * PI_FX / 4).abs() <= 600, "atan2(1,-1) = {b}");
    let c = fx_atan2(-SCALE, SCALE);
    assert!((c + PI_FX / 4).abs() <= 400, "atan2(-1,1) = {c}");
    let d = fx_atan2(SCALE, 0);
    assert!((d - HALF_PI_FX).abs() <= 400, "atan2(1,0) = {d}");
}

#[test]
fn negative_log_is_zero_at_one_and_ln2_at_half() {
    assert_eq!(fx_neg_ln_unit(SCALE), 0);
    let h = fx_neg_ln_unit(SCALE / 2);
    assert!((h - LN2_FX).abs() <= 100, "-ln(1/2) = {h}");
}

#[test]
fn random_samples_stay_in_their_ranges() {
    let mut all_equal = true;
    let first = random();
    for _ in 0..64 {
        let r = random();
        assert!(0 <= r && r < SCALE);
        if r != first {
            all_equal = false;
        }
    }
    assert!(!all_equal, "the random source returned one value 64 times");
    for _ in 0..32 {
        let r = randrange(-5, 7);
        assert!(-5 <= r && r < 7);
        let i = randint(-3, 4);
        assert!(-3 <= i && i < 4);
        let u = randuint(2, 9);
        assert!(2 <= u && u < 9);
    }
    assert_eq!(randrange(41, 42), 41);
}

#[test]
fn vector_algebra_is_componentwise() {
    let a = Vec3::new(SCALE, 2 * SCALE, -3 * SCALE);
    let b = Vec3::new(4 * SCALE, -5 * SCALE, 6 * SCALE);
    let s = a.add(b);
    assert_eq!((s.x, s.y, s.z), (5 * SCALE, -3 * SCALE, 3 * SCALE));
    let d = a.sub(b);
    assert_eq!((d.x, d.y, d.z), (-3 * SCALE, 7 * SCALE, -9 * SCALE));
    assert_eq!(a.dot(b), 4 * SCALE - 10 * SCALE - 18 * SCALE);
    let c = Vec3::new(SCALE, 0, 0).cross(Vec3::new(0, SCALE, 0));
    assert_eq!((c.x, c.y, c.z), (0, 0, SCALE));
    let n = Vec3::new(3 * SCALE, 4 * SCALE, 0).normalize();
    assert_eq!(n.x, 3 * SCALE / 5);
    assert_eq!(n.y, 4 * SCALE / 5);
}

#[test]
fn length_of_pythagorean_triple_is_exact() {
    let v = Vec3::new(3 * SCALE, 4 * SCALE, 0);
    assert_eq!(v.length_squared(), 25 * SCALE);
    assert_eq!(v.length(), 5 * SCALE);
}

#[test]
fn reflect_mirrors_about_the_normal() {
    let v = Vec3::new(SCALE, -SCALE, 0);
    let n = Vec3::new(0, SCALE, 0);
    let r = reflect(v, n);
    assert_eq!((r.x, r.y, r.z), (SCALE, SCALE, 0));
}

#[test]
fn refract_at_normal_incidence_with_matched_indices_is_identity() {
    let n = Vec3::new(0, 0, SCALE);
    let uv = Vec3::new(0, 0, -SCALE);
    let r = refract(uv, n, SCALE);
    assert_eq!((r.x, r.y, r.z), (uv.x, uv.y, uv.z));
}

#[test]
fn rejection_samplers_stay_inside_their_domains() {
    for _ in 0..32 {
        let p = random_in_unit_sphere();
        assert!(p.length_squared() < SCALE && p.length_squared() > 0);
        let d = random_in_unit_disk();
        assert!(d.length_squared() < SCALE && d.z == 0);
        let u = random_unit_vec3();
        let ls = u.length_squared();
        assert!((ls - SCALE).abs() < 2000, "unit length squared {ls}");
        let h = random_in_hemisphere(Vec3::new(0, SCALE, 0));
        assert!(h.dot(Vec3::new(0, SCALE, 0)) >= 0);
    }
}

#[test]
fn near_zero_only_accepts_the_zero_vector() {
    assert!(Vec3::new(0, 0, 0).near_zero());
    assert!(!Vec3::new(1, 0, 0).near_zero());
}
