use raytracer::fx::SCALE;
use raytracer::vec3::Vec3;
use raytracer::ray::Ray;
use raytracer::collider::{Geometry, SceneColliders};
use raytracer::material::{Material, MaterialType, HitRecord};
use raytracer::texture::{Texture, ImageTextureAtlas, ImageData};
use raytracer::camera::Camera;
use raytracer::render::{ray_color, render, write_color, channel_byte, accumulate, finalize_buffer, samples_per_thread, render_worker, render_frame_worker};
use raytracer::pdf::PDF;

const WMAX: i128 = 17179869184;

fn ray(o: (i128, i128, i128), d: (i128, i128, i128)) -> Ray {
    Ray::new(Vec3::new(o.0, o.1, o.2), Vec3::new(d.0, d.1, d.2), 0)
}

fn tagged(v: i128) -> Material {
    // distinct glossy albedos let a test identify which sphere was hit
    Material::glossy(Vec3::new(v, v, v), 0)
}

fn tag_of(m: &Material) -> i128 {
    match &m.mat_type {
        MaterialType::Glossy(c, _f) => c.x,
        _ => -1,
    }
}

#[test]
fn bvh_traversal_matches_the_linear_scan() {
    // non-overlapping spheres on a grid, distinct materials
    let mut spheres: Vec<Geometry> = Vec::new();
    let mut k: i128 = 0;
    for ix in -2..3i128 {
        for iy in -2..3i128 {
            for iz in 1..6i128 {
                k += 1;
                spheres.push(Geometry::sphere(
                    Vec3::new(3 * ix * SCALE, 3 * iy * SCALE, -3 * iz * SCALE),
                    SCALE,
                    tagged(k),
                ));
            }
        }
    }
    let mut linear = SceneColliders::new();
    let mut copy: Vec<Geometry> = Vec::new();
    let mut k2: i128 = 0;
    for ix in -2..3i128 {
        for iy in -2..3i128 {
            for iz in 1..6i128 {
                k2 += 1;
                let g = Geometry::sphere(
                    Vec3::new(3 * ix * SCALE, 3 * iy * SCALE, -3 * iz * SCALE),
                    SCALE,
                    tagged(k2),
                );
                copy.push(g);
            }
        }
    }
    for g in copy {
        linear.add(g);
    }
    let tree = Geometry::bvh_node(spheres, 0, SCALE);

    let mut checked = 0;
    for ox in -8..9i128 {
        for oy in -8..9i128 {
            let r = ray((ox * SCALE, oy * SCALE, 8 * SCALE), (0, 0, -SCALE));
            let via_tree = tree.intersect(r, 66, WMAX);
            let via_scan = linear.intersect(r, 66, WMAX);
            match (via_tree, via_scan) {
                (None, None) => {},
                (Some(a), Some(b)) => {
                    assert_eq!(a.t, b.t, "nearest-t differs at {ox},{oy}");
                    assert_eq!(
                        tag_of(&a.material),
                        tag_of(&b.material),
                        "hit material differs at {ox},{oy}"
                    );
                    checked += 1;
                },
                (a, b) => panic!("hit disagreement at {ox},{oy}: {:?} vs {:?}", a.is_some(), b.is_some()),
            }
            // a few slanted rays as well
            let r2 = ray((ox * SCALE, oy * SCALE, 8 * SCALE), (SCALE / 7, -SCALE / 9, -SCALE));
            let t2 = tree.intersect(r2, 66, WMAX).map(|h| h.t);
            let s2 = linear.intersect(r2, 66, WMAX).map(|h| h.t);
            assert_eq!(t2, s2, "slanted nearest-t differs at {ox},{oy}");
        }
    }
    assert!(checked > 50, "the grid should produce many hits, got {checked}");
}

#[test]
fn emitted_is_zero_for_non_emissive_materials() {
    let atlas = ImageTextureAtlas::new();
    let m = Material::lambertian(Texture::solid_color(Vec3::new(SCALE, 0, 0)));
    let e = m.emitted(0, 0, Vec3::new(0, 0, 0), &atlas);
    assert_eq!((e.x, e.y, e.z), (0, 0, 0));
    let glow = Material::emissive(Vec3::new(SCALE, SCALE / 2, 0));
    let g = glow.emitted(0, 0, Vec3::new(0, 0, 0), &atlas);
    assert_eq!((g.x, g.y, g.z), (SCALE, SCALE / 2, 0));
}

#[test]
fn glossy_scatter_reflects_and_reports_the_side() {
    let atlas = ImageTextureAtlas::new();
    let m = Material::glossy(Vec3::new(SCALE, SCALE, SCALE), 0);
    let mut rec = HitRecord::new(Vec3::new(0, 0, -5 * SCALE), 5 * SCALE);
    let r_in = ray((0, 0, 0), (0, 0, -SCALE));
    rec.set_face_normal(r_in, Vec3::new(0, 0, SCALE));
    let mut attenuation = Vec3::new(0, 0, 0);
    let mut scattered = ray((0, 0, 0), (0, 0, 0));
    let mut pdf: i128 = 0;
    let ok = m.scatter(r_in, &mut attenuation, rec, &mut scattered, &mut pdf, &atlas);
    assert!(ok);
    assert_eq!((attenuation.x, attenuation.y, attenuation.z), (SCALE, SCALE, SCALE));
    assert_eq!(
        (scattered.direction.x, scattered.direction.y, scattered.direction.z),
        (0, 0, SCALE),
        "zero-fuzz reflection must be the exact mirror direction"
    );
    assert_eq!(scattered.origin.z, -5 * SCALE);
}

#[test]
fn dielectric_scatter_always_succeeds_with_unit_attenuation() {
    let atlas = ImageTextureAtlas::new();
    let m = Material::dielectric(3 * SCALE / 2);
    let mut rec = HitRecord::new(Vec3::new(0, 0, -5 * SCALE), 5 * SCALE);
    let r_in = ray((0, 0, 0), (0, 0, -SCALE));
    rec.set_face_normal(r_in, Vec3::new(0, 0, SCALE));
    let mut attenuation = Vec3::new(0, 0, 0);
    let mut scattered = ray((0, 0, 0), (0, 0, 0));
    let mut pdf: i128 = 0;
    let ok = m.scatter(r_in, &mut attenuation, rec, &mut scattered, &mut pdf, &atlas);
    assert!(ok);
    assert_eq!((attenuation.x, attenuation.y, attenuation.z), (SCALE, SCALE, SCALE));
}

#[test]
fn image_texture_samples_the_stored_pixels() {
    let mut atlas = ImageTextureAtlas::new();
    // a 2 x 2 image: red, green / blue, white
    let pixels: Vec<u8> = vec![
        255, 0, 0, 0, 255, 0,
        0, 0, 255, 255, 255, 255,
    ];
    let idx = atlas.load(ImageData { width: 2, height: 2, pixels });
    let t = Texture::image(&atlas, idx);
    // u = 0, v = 1 addresses the top-left pixel after the vertical flip
    let c = t.get_color(0, SCALE, Vec3::new(0, 0, 0), &atlas);
    assert_eq!((c.x, c.y, c.z), (255 * 257, 0, 0));
    let c2 = t.get_color(SCALE, 0, Vec3::new(0, 0, 0), &atlas);
    assert_eq!((c2.x, c2.y, c2.z), (255 * 257, 255 * 257, 255 * 257));
}

#[test]
fn checkered_texture_alternates_with_the_sine_product() {
    let atlas = ImageTextureAtlas::new();
    let odd = Vec3::new(SCALE, 0, 0);
    let even = Vec3::new(0, SCALE, 0);
    let t = Texture::checkered(odd, even);
    // at the origin all sines vanish: the even color
    let c0 = t.get_color(0, 0, Vec3::new(0, 0, 0), &atlas);
    assert_eq!(c0.y, SCALE);
    // sin(10 * 0.3) > 0 on one axis and the others at zero keep it even;
    // flipping one coordinate's sign flips nothing with zero product, so
    // probe a point with all three sines nonzero instead
    let p = Vec3::new(3 * SCALE / 10, 3 * SCALE / 10, 3 * SCALE / 10);
    let c1 = t.get_color(0, 0, p, &atlas);
    let q = Vec3::new(-3 * SCALE / 10, 3 * SCALE / 10, 3 * SCALE / 10);
    let c2 = t.get_color(0, 0, q, &atlas);
    assert_ne!((c1.x, c1.y), (c2.x, c2.y), "mirrored points should alternate colors");
}

#[test]
fn noise_texture_yields_bounded_gray() {
    let atlas = ImageTextureAtlas::new();
    let t = Texture::noise(SCALE, 7);
    for i in 0..16i128 {
        let p = Vec3::new(i * SCALE / 3, i * SCALE / 5, i * SCALE / 7);
        let c = t.get_color(0, 0, p, &atlas);
        assert!(c.x >= 0 && c.x <= SCALE);
        assert_eq!(c.x, c.y);
        assert_eq!(c.x, c.z);
    }
}

#[test]
fn ray_color_returns_background_on_a_miss_and_black_at_depth_zero() {
    let mut scene = SceneColliders::new();
    scene.add(Geometry::sphere(Vec3::new(0, 0, -5 * SCALE), SCALE, tagged(SCALE)));
    let bg = Vec3::new(1000, 2000, 3000);
    let up = ray((0, 0, 0), (0, SCALE, 0));
    let c = ray_color(up, bg, &scene, 8);
    assert_eq!((c.x, c.y, c.z), (1000, 2000, 3000));
    let towards = ray((0, 0, 0), (0, 0, -SCALE));
    let z = ray_color(towards, bg, &scene, 0);
    assert_eq!((z.x, z.y, z.z), (0, 0, 0));
}

#[test]
fn ground_only_scene_is_black_at_depth_one() {
    // a large ground sphere and an emissive sphere behind the camera;
    // black background, depth one: every ground ray is exactly black
    let mut scene = SceneColliders::new();
    scene.add(Geometry::sphere(
        Vec3::new(0, -1000 * SCALE, -20 * SCALE),
        995 * SCALE,
        Material::lambertian(Texture::solid_color(Vec3::new(SCALE / 2, SCALE / 2, SCALE / 2))),
    ));
    scene.add(Geometry::sphere(
        Vec3::new(0, 0, 40 * SCALE),
        SCALE,
        Material::emissive(Vec3::new(4 * SCALE, 4 * SCALE, 4 * SCALE)),
    ));
    let black = Vec3::new(0, 0, 0);
    for i in -4..5i128 {
        let r = ray((0, 0, 0), (i * SCALE / 8, -SCALE, -SCALE));
        let c = ray_color(r, black, &scene, 1);
        assert_eq!((c.x, c.y, c.z), (0, 0, 0), "ground ray {i} must be black");
    }
}

#[test]
fn mirror_sphere_reflects_the_background_exactly() {
    // an all-mirror sphere on the camera axis: the axial ray reflects
    // straight back and returns the background color exactly
    let mut scene = SceneColliders::new();
    scene.add(Geometry::sphere(
        Vec3::new(0, 0, -5 * SCALE),
        SCALE,
        Material::glossy(Vec3::new(SCALE, SCALE, SCALE), 0),
    ));
    let bg = Vec3::new(30000, 20000, 10000);
    let axial = ray((0, 0, 0), (0, 0, -SCALE));
    let c = ray_color(axial, bg, &scene, 16);
    assert_eq!((c.x, c.y, c.z), (30000, 20000, 10000));
}

#[test]
fn channel_bytes_follow_the_display_transform() {
    assert_eq!(channel_byte(0, 1), 0);
    assert_eq!(channel_byte(SCALE, 1), 255);
    assert_eq!(channel_byte(4 * SCALE, 4), 255);
    // 0.25 averages to gamma 0.5: byte 128
    assert_eq!(channel_byte(SCALE / 4, 1), 128);
}

#[test]
fn write_color_places_bytes_at_the_pixel_index() {
    let mut buf: Vec<u8> = vec![0; 3 * 4 * 4];
    write_color(&mut buf, 1, 2, 4, Vec3::new(SCALE, SCALE / 4, 0), 1);
    let base = 3 * (2 * 4 + 1);
    assert_eq!(buf[base], 255);
    assert_eq!(buf[base + 1], 128);
    assert_eq!(buf[base + 2], 0);
    assert_eq!(buf[0], 0);
}

#[test]
fn render_fills_the_framebuffer() {
    let mut scene = SceneColliders::new();
    scene.add(Geometry::sphere(
        Vec3::new(0, 0, -6 * SCALE),
        2 * SCALE,
        Material::emissive(Vec3::new(SCALE, SCALE, SCALE)),
    ));
    let cam = Camera::new(
        Vec3::new(0, 0, 0),
        Vec3::new(0, 0, -SCALE),
        Vec3::new(0, SCALE, 0),
        60 * SCALE,
        0,
        SCALE,
        SCALE,
    );
    let mut buf: Vec<u8> = vec![7; 3 * 8 * 8];
    render(&mut buf, &scene, &cam, Vec3::new(0, 0, 0), 4, 2, 8, 8);
    assert_eq!(buf.len(), 3 * 8 * 8);
    // the emissive sphere covers the image center: some pixel is lit
    assert!(buf.iter().any(|&b| b > 0), "the framebuffer stayed dark");
}

#[test]
fn worker_buffers_merge_and_finalize() {
    let mut scene = SceneColliders::new();
    scene.add(Geometry::sphere(
        Vec3::new(0, 0, -6 * SCALE),
        2 * SCALE,
        Material::emissive(Vec3::new(SCALE, SCALE, SCALE)),
    ));
    let cam = Camera::new(
        Vec3::new(0, 0, 0),
        Vec3::new(0, 0, -SCALE),
        Vec3::new(0, SCALE, 0),
        60 * SCALE,
        0,
        SCALE,
        SCALE,
    );
    let n = 2;
    let share = samples_per_thread(4, n);
    assert_eq!(share, 2);
    let w1 = render_worker(Vec3::new(0, 0, 0), 4, 4, share, &cam, &scene, 3, n);
    let w2 = render_worker(Vec3::new(0, 0, 0), 4, 4, share, &cam, &scene, 3, n);
    assert_eq!(w1.len(), 3 * 4 * 4);
    let mut global: Vec<i128> = vec![0; w1.len()];
    accumulate(&mut global, &w1);
    accumulate(&mut global, &w2);
    for k in 0..global.len() {
        assert_eq!(global[k], w1[k] + w2[k]);
    }
    let bytes = finalize_buffer(&global);
    assert_eq!(bytes.len(), global.len());
    assert!(bytes.iter().any(|&b| b > 0));
}

#[test]
fn cosine_density_is_zero_below_the_horizon() {
    let p = PDF::cosine_pdf(Vec3::new(0, SCALE, 0));
    let up = p.value(Vec3::new(0, SCALE, 0));
    assert!(up > 0);
    let down = p.value(Vec3::new(0, -SCALE, 0));
    assert_eq!(down, 0);
    let mix = PDF::mixture_pdf(
        PDF::cosine_pdf(Vec3::new(0, SCALE, 0)),
        PDF::cosine_pdf(Vec3::new(0, SCALE, 0)),
    );
    let m = mix.value(Vec3::new(0, SCALE, 0));
    assert!((m - up).abs() <= 1);
    let d = mix.generate();
    let _ = d;
}

#[test]
fn camera_rays_start_at_the_eye() {
    let cam = Camera::new(
        Vec3::new(SCALE, 2 * SCALE, 3 * SCALE),
        Vec3::new(0, 0, 0),
        Vec3::new(0, SCALE, 0),
        40 * SCALE,
        0,
        2 * SCALE,
        3 * SCALE / 2,
    );
    assert_eq!(cam.lens_radius, 0);
    let r = cam.get_ray(SCALE / 2, SCALE / 2);
    assert_eq!((r.origin.x, r.origin.y, r.origin.z), (SCALE, 2 * SCALE, 3 * SCALE));
    // the central ray heads roughly from the eye toward the target
    assert!(r.direction.x < 0 && r.direction.y < 0 && r.direction.z < 0);
}

#[test]
fn frame_worker_stays_in_the_unit_range() {
    let mut scene = SceneColliders::new();
    scene.add(Geometry::sphere(
        Vec3::new(0, 0, -6 * SCALE),
        2 * SCALE,
        Material::emissive(Vec3::new(SCALE, SCALE, SCALE)),
    ));
    let cam = Camera::new(
        Vec3::new(0, 0, 0),
        Vec3::new(0, 0, -SCALE),
        Vec3::new(0, SCALE, 0),
        60 * SCALE,
        0,
        SCALE,
        SCALE,
    );
    let frame = render_frame_worker(Vec3::new(0, 0, 0), 4, 4, 2, &cam, &scene, 3, 1);
    assert_eq!(frame.len(), 3 * 4 * 4);
    assert!(frame.iter().all(|&c| 0 <= c && c <= SCALE));
    assert!(frame.iter().any(|&c| c > 0));
}

#[test]
fn a_triangle_mesh_behaves_like_its_triangles() {
    let tris = vec![
        (
            Vec3::new(-SCALE, -SCALE, -3 * SCALE),
            Vec3::new(SCALE, -SCALE, -3 * SCALE),
            Vec3::new(0, SCALE, -3 * SCALE),
        ),
        (
            Vec3::new(-SCALE, -SCALE, -7 * SCALE),
            Vec3::new(SCALE, -SCALE, -7 * SCALE),
            Vec3::new(0, SCALE, -7 * SCALE),
        ),
    ];
    let mesh = Geometry::triangle_mesh(tris, tagged(SCALE));
    let h = mesh
        .intersect(ray((0, 0, 0), (0, 0, -SCALE)), 66, WMAX)
        .expect("the near triangle is on the axis");
    assert_eq!(h.t, 3 * SCALE);
    assert!(mesh.intersect(ray((4 * SCALE, 0, 0), (0, 0, -SCALE)), 66, WMAX).is_none());
}

#[test]
fn glossy_fuzz_is_clamped_into_the_unit_interval() {
    let below = Material::glossy(Vec3::new(SCALE, SCALE, SCALE), -3 * SCALE);
    match below.mat_type {
        MaterialType::Glossy(_c, f) => assert_eq!(f, 0),
        _ => panic!("expected a glossy material"),
    }
    let above = Material::glossy(Vec3::new(SCALE, SCALE, SCALE), 5 * SCALE);
    match above.mat_type {
        MaterialType::Glossy(_c, f) => assert_eq!(f, SCALE),
        _ => panic!("expected a glossy material"),
    }
}
