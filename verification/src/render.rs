//! The path-tracing integrator and the accumulation renderer.

use vstd::prelude::*;
use crate::fx::{SCALE, WMAX, FX_LIM, tdiv, fx_mul_spec, fx_div_spec, fx_mul, fx_div, fx_sqrt, lemma_fx_mul_val_bound, lemma_tdiv_bounds, lemma_tdiv_div_bound, lemma_mul_bound};
use crate::vec3::{Vec3, Rgb, vec_in_range};
use crate::ray::Ray;
use crate::collider::{SceneColliders, ray_in_range, scan_seq_spec, mirrored, T_EPS, OLIM, DLIM};
use crate::material::MaterialType;
use crate::camera::{Camera, cam_wf};
use crate::utils::{random, clamp};

verus! {

/// Cap on radiance samples: one bounce's contribution is clamped here, so
/// accumulated colors stay bounded at any depth.
pub const RAD_LIM: i128 = 1099511627776;

/// Cap on background and texture colors fed to the integrator.
pub const COLOR_LIM: i128 = 16777216;

/// The mirror bounce of a hit on a fuzz-free glossy surface: the exact
/// reflected ray from the hit point.
pub open spec fn mirror_bounce_spec(r: Ray, info: crate::collider::HitInfo) -> Ray {
    let refl = crate::vec3::reflect_spec(
        crate::vec3::unit_or_default_spec(r.direction),
        info.normal,
    );
    Ray {
        origin: info.point,
        direction: Vec3 { x: refl.0 as i128, y: refl.1 as i128, z: refl.2 as i128 },
        time: r.time,
    }
}

/// The recursive radiance estimate along a ray: black at exhausted depth,
/// the background on a miss, and emission plus attenuated recursion on a
/// hit.  What is pinned for every outcome of the sampling: exhausted depth
/// is exactly black, a miss over a fully deterministic scene is exactly
/// the background, at depth one a hit on a non-emissive material over a
/// deterministic scene is exactly black (the scattered bounce has no
/// budget left, and emission of such a material is zero), and a hit on a
/// white fuzz-free mirror whose reflected ray misses the scene is exactly
/// the background.
#[verifier::rlimit(100)]
#[verifier::spinoff_prover]
pub fn ray_color(r: Ray, background: Rgb, scene: &SceneColliders, depth: usize) -> (color: Rgb)
    requires
        scene.wf(),
        ray_in_range(r),
        vec_in_range(background, COLOR_LIM as int),
    ensures
        vec_in_range(color, 2 * RAD_LIM as int),
        depth == 0 ==> color == (Vec3 { x: 0i128, y: 0i128, z: 0i128 }),
        depth > 0 && (forall|k: int|
            0 <= k < scene.objects.len() ==> mirrored(#[trigger] scene.objects[k]))
            && scan_seq_spec(scene.objects@, r, T_EPS as int, WMAX as int) is None ==> color
            == background,
        depth == 1 && (forall|k: int|
            0 <= k < scene.objects.len() ==> mirrored(#[trigger] scene.objects[k])) && (
        scan_seq_spec(scene.objects@, r, T_EPS as int, WMAX as int) matches Some(info) && !(
        info.mat.mat_type is Emissive)) ==> color == (Vec3 { x: 0i128, y: 0i128, z: 0i128 }),
        depth >= 2 && (forall|k: int|
            0 <= k < scene.objects.len() ==> mirrored(#[trigger] scene.objects[k])) && (
        scan_seq_spec(scene.objects@, r, T_EPS as int, WMAX as int) matches Some(info)
            && info.mat.mat_type == MaterialType::Glossy(Vec3 { x: SCALE, y: SCALE, z: SCALE }, 0i128)
            && ({
            let bounce_ray = mirror_bounce_spec(r, info);
            &&& crate::vec3::dot_spec(bounce_ray.direction, info.normal) > 0
            &&& ray_in_range(bounce_ray)
            &&& scan_seq_spec(scene.objects@, bounce_ray, T_EPS as int, WMAX as int) is None
        })) ==> color == background,
    decreases depth,
{
    if depth == 0 {
        return Vec3::origin();
    }
    let hit = scene.intersect(r, T_EPS, WMAX);
    match hit {
        None => background,
        Some(rec) => {
            let mut scattered = Ray {
                origin: Vec3 { x: 0, y: 0, z: 0 },
                direction: Vec3 { x: 0, y: 0, z: 0 },
                time: 0,
            };
            let mut attenuation = Vec3 { x: 0, y: 0, z: 0 };
            let mut pdf: i128 = 0;
            let ghost grec = rec;
            let emitted = rec.material.emitted(rec.u, rec.v, rec.point, &scene.atlas);
            let mat = rec.material.clone();
            proof {
                crate::material::lemma_same_material_wf(rec.material, mat, scene.atlas);
            }
            let did_scatter = mat.scatter(
                r,
                &mut attenuation,
                rec,
                &mut scattered,
                &mut pdf,
                &scene.atlas,
            );
            let e_clamped = clamp_color(emitted);
            if did_scatter {
                let ok = scattered.origin.x >= -OLIM && scattered.origin.x <= OLIM
                    && scattered.origin.y >= -OLIM && scattered.origin.y <= OLIM
                    && scattered.origin.z >= -OLIM && scattered.origin.z <= OLIM
                    && scattered.direction.x >= -DLIM && scattered.direction.x <= DLIM
                    && scattered.direction.y >= -DLIM && scattered.direction.y <= DLIM
                    && scattered.direction.z >= -DLIM && scattered.direction.z <= DLIM
                    && scattered.time >= -WMAX && scattered.time <= WMAX;
                if !ok {
                    return e_clamped;
                }
                let bounce = ray_color(scattered, background, scene, depth - 1);
                let a_clamped = clamp_color(attenuation);
                proof {
                    lemma_fx_mul_val_bound(
                        a_clamped.x as int,
                        bounce.x as int,
                        COLOR_LIM as int,
                        2 * RAD_LIM as int,
                    );
                    lemma_fx_mul_val_bound(
                        a_clamped.y as int,
                        bounce.y as int,
                        COLOR_LIM as int,
                        2 * RAD_LIM as int,
                    );
                    lemma_fx_mul_val_bound(
                        a_clamped.z as int,
                        bounce.z as int,
                        COLOR_LIM as int,
                        2 * RAD_LIM as int,
                    );
                }
                let cx = fx_mul(a_clamped.x, bounce.x);
                let cy = fx_mul(a_clamped.y, bounce.y);
                let cz = fx_mul(a_clamped.z, bounce.z);
                let scatter_part = Vec3 {
                    x: clamp(cx, -RAD_LIM, RAD_LIM),
                    y: clamp(cy, -RAD_LIM, RAD_LIM),
                    z: clamp(cz, -RAD_LIM, RAD_LIM),
                };
                proof {
                    if depth == 1 {
                        assert(bounce == Vec3 { x: 0i128, y: 0i128, z: 0i128 });
                        assert(a_clamped.x as int * 0 == 0) by (nonlinear_arith);
                        assert(a_clamped.y as int * 0 == 0) by (nonlinear_arith);
                        assert(a_clamped.z as int * 0 == 0) by (nonlinear_arith);
                        assert(tdiv(0, SCALE as int) == 0);
                    }
                    let all_m = forall|k: int|
                        0 <= k < scene.objects.len() ==> mirrored(#[trigger] scene.objects[k]);
                    let scan0 = scan_seq_spec(scene.objects@, r, T_EPS as int, WMAX as int);
                    if depth >= 2 && all_m && (scan0 matches Some(info) && info.mat.mat_type
                        == MaterialType::Glossy(Vec3 { x: SCALE, y: SCALE, z: SCALE }, 0i128) && ({
                        let bounce_ray = mirror_bounce_spec(r, info);
                        &&& crate::vec3::dot_spec(bounce_ray.direction, info.normal) > 0
                        &&& ray_in_range(bounce_ray)
                        &&& scan_seq_spec(
                            scene.objects@,
                            bounce_ray,
                            T_EPS as int,
                            WMAX as int,
                        ) is None
                    })) {
                        let info = scan0->Some_0;
                        let bounce_ray = mirror_bounce_spec(r, info);
                        assert(grec.normal == info.normal && grec.point == info.point);
                        assert(mat.mat_type == MaterialType::Glossy(
                            Vec3 { x: SCALE, y: SCALE, z: SCALE },
                            0i128,
                        ));
                        assert(forall|a: int| #[trigger] fx_mul_spec(a, 0) == 0) by {
                            assert forall|a: int| #[trigger] fx_mul_spec(a, 0) == 0 by {
                                assert(a * 0 == 0) by (nonlinear_arith);
                                assert(tdiv(0, SCALE as int) == 0);
                            };
                        };
                        assert(scattered.direction == bounce_ray.direction);
                        assert(scattered == bounce_ray);
                        assert(bounce == background);
                        assert(forall|a: int|
                            -COLOR_LIM <= a <= COLOR_LIM ==> #[trigger] fx_mul_spec(
                                SCALE as int,
                                a,
                            ) == a) by {
                            assert forall|a: int|
                                -COLOR_LIM <= a <= COLOR_LIM implies #[trigger] fx_mul_spec(
                                SCALE as int,
                                a,
                            ) == a by {
                                crate::fx::lemma_tdiv_neg(a * SCALE as int, SCALE as int);
                                if a >= 0 {
                                    assert((a * SCALE as int) / SCALE as int == a)
                                        by (nonlinear_arith)
                                        requires
                                            a >= 0,
                                            SCALE == 65536,
                                    ;
                                } else {
                                    assert(((-a) * SCALE as int) / SCALE as int == -a)
                                        by (nonlinear_arith)
                                        requires
                                            -a >= 0,
                                            SCALE == 65536,
                                    ;
                                    assert(-(a * SCALE as int) == (-a) * SCALE as int)
                                        by (nonlinear_arith);
                                }
                                assert(SCALE as int * a == a * SCALE as int)
                                    by (nonlinear_arith);
                            };
                        };
                        assert(a_clamped == Vec3 { x: SCALE, y: SCALE, z: SCALE });
                        assert(cx == background.x && cy == background.y && cz == background.z);
                    }
                }
                Vec3 {
                    x: e_clamped.x + scatter_part.x,
                    y: e_clamped.y + scatter_part.y,
                    z: e_clamped.z + scatter_part.z,
                }
            } else {
                e_clamped
            }
        },
    }
}

/// A color clamped into the radiance range; colors already inside it (all
/// texture and emission colors) pass through unchanged.
fn clamp_color(c: Rgb) -> (r: Rgb)
    ensures
        vec_in_range(r, COLOR_LIM as int),
        vec_in_range(c, COLOR_LIM as int) ==> r == c,
{
    Vec3 {
        x: clamp(c.x, -COLOR_LIM, COLOR_LIM),
        y: clamp(c.y, -COLOR_LIM, COLOR_LIM),
        z: clamp(c.z, -COLOR_LIM, COLOR_LIM),
    }
}

/// One channel of the display transform: the sample average, square-rooted
/// for gamma, clamped to just below one, and scaled to a byte.
pub open spec fn channel_byte_spec(c: int, spp: int) -> int {
    let scaled = tdiv(c, spp);
    let nn = if scaled >= 0 {
        scaled
    } else {
        0
    };
    let g = crate::fx::fx_sqrt_spec(if nn <= 4611686018427387904 {
        nn
    } else {
        4611686018427387904
    });
    let cl = if g > 65470 {
        65470
    } else {
        g
    };
    tdiv(256 * cl, SCALE as int)
}

/// One channel of a worker's output, at spec level: averaged,
/// gamma-corrected, clamped, scaled to the display range and divided by
/// the worker count.
pub open spec fn worker_channel_spec(c: int, spp: int, n: int) -> int {
    let scaled = tdiv(c, spp);
    let nn = if scaled >= 0 {
        scaled
    } else {
        0
    };
    let g = crate::fx::fx_sqrt_spec(
        if nn <= 4611686018427387904 {
            nn
        } else {
            4611686018427387904
        },
    );
    let cl = if g > 65470 {
        65470
    } else {
        g
    };
    tdiv(256 * cl, n)
}

/// One channel of a progressive frame, at spec level: as above but kept
/// in the unit range instead of scaled to bytes.
pub open spec fn frame_channel_spec(c: int, spp: int, n: int) -> int {
    let scaled = tdiv(c, spp);
    let nn = if scaled >= 0 {
        scaled
    } else {
        0
    };
    let g = crate::fx::fx_sqrt_spec(
        if nn <= 4611686018427387904 {
            nn
        } else {
            4611686018427387904
        },
    );
    let cl = if g > 65470 {
        65470
    } else {
        g
    };
    tdiv(cl, n)
}

/// The display transform of one channel.
pub fn channel_byte(c: i128, spp: i128) -> (b: u8)
    requires
        1 <= spp,
        -4 * RAD_LIM <= c <= 4 * RAD_LIM,
    ensures
        b == channel_byte_spec(c as int, spp as int),
{
    proof {
        lemma_tdiv_bounds(c as int, spp as int);
    }
    let scaled = crate::fx::tdiv_i(c, spp);
    let nn = if scaled >= 0 { scaled } else { 0 };
    let capped = if nn <= FX_LIM { nn } else { FX_LIM };
    let g = fx_sqrt(capped);
    let cl = if g > 65470 { 65470 } else { g };
    proof {
        lemma_tdiv_bounds(256 * cl as int, SCALE as int);
        assert(g >= 0);
        assert(256 * cl as int <= 256 * 65470) by (nonlinear_arith)
            requires
                0 <= cl <= 65470,
        ;
        assert(256int * 65470int / 65536int == 255);
        crate::fx::lemma_tdiv_mono(256 * cl as int, 16760320, SCALE as int);
        assert(tdiv(16760320, 65536) == 255);
    }
    let v = crate::fx::tdiv_i(256 * cl, SCALE);
    v as u8
}

/// Writes one pixel of a byte framebuffer (three channels per pixel,
/// row-major) through the display transform.
pub fn write_color(
    imbuf: &mut Vec<u8>,
    x: usize,
    y: usize,
    width: usize,
    pixel_color: Rgb,
    samples_per_pixel: usize,
)
    requires
        x < width,
        3 * (y * width + x) + 2 < old(imbuf).len(),
        1 <= samples_per_pixel <= 1048576,
        vec_in_range(pixel_color, 4 * RAD_LIM as int),
    ensures
        final(imbuf).len() == old(imbuf).len(),
        ({
            let base = 3 * (y * width + x);
            &&& final(imbuf)[base as int] == channel_byte_spec(
                pixel_color.x as int,
                samples_per_pixel as int,
            )
            &&& final(imbuf)[base + 1] == channel_byte_spec(
                pixel_color.y as int,
                samples_per_pixel as int,
            )
            &&& final(imbuf)[base + 2] == channel_byte_spec(
                pixel_color.z as int,
                samples_per_pixel as int,
            )
            &&& forall|i: int|
                0 <= i < old(imbuf).len() && i != base && i != base + 1 && i != base + 2
                    ==> final(imbuf)[i] == old(imbuf)[i]
        }),
{
    let base = 3 * (y * width + x);
    let ir = channel_byte(pixel_color.x, samples_per_pixel as i128);
    let ig = channel_byte(pixel_color.y, samples_per_pixel as i128);
    let ib = channel_byte(pixel_color.z, samples_per_pixel as i128);
    imbuf.set(base, ir);
    imbuf.set(base + 1, ig);
    imbuf.set(base + 2, ib);
}

/// A fully mirrored scene that no in-range ray can hit: every pixel then
/// receives exactly the background.
pub open spec fn scene_all_miss(scene: SceneColliders) -> bool {
    &&& forall|k: int| 0 <= k < scene.objects.len() ==> mirrored(#[trigger] scene.objects[k])
    &&& forall|rr: Ray|
        ray_in_range(rr) ==> (#[trigger] scan_seq_spec(
            scene.objects@,
            rr,
            T_EPS as int,
            WMAX as int,
        )) is None
}

/// The byte an all-miss render writes at buffer index `q`: the display
/// transform of the accumulated background channel.
pub open spec fn miss_byte(bg: Rgb, spp: int, q: int) -> int {
    if q % 3 == 0 {
        channel_byte_spec(spp * bg.x, spp)
    } else if q % 3 == 1 {
        channel_byte_spec(spp * bg.y, spp)
    } else {
        channel_byte_spec(spp * bg.z, spp)
    }
}

/// Renders the whole image in one pass: for every pixel, the average of
/// jittered radiance samples, tone-mapped into the byte framebuffer.
/// On an all-miss scene every byte is pinned to the background's display
/// transform.
#[verifier::loop_isolation(false)]
#[verifier::rlimit(100)]
#[verifier::spinoff_prover]
pub fn render(
    imgbuf: &mut Vec<u8>,
    scene: &SceneColliders,
    cam: &Camera,
    background: Rgb,
    max_depth: usize,
    samples_per_pixel: usize,
    img_width: usize,
    img_height: usize,
)
    requires
        scene.wf(),
        cam_wf(*cam),
        vec_in_range(background, COLOR_LIM as int),
        2 <= img_width <= 16384,
        2 <= img_height <= 16384,
        1 <= samples_per_pixel <= 1024,
        old(imgbuf).len() == 3 * img_width * img_height,
    ensures
        final(imgbuf).len() == old(imgbuf).len(),
        scene_all_miss(*scene) && max_depth >= 1 ==> forall|q: int|
            0 <= q < final(imgbuf).len() ==> final(imgbuf)[q] == miss_byte(
                background,
                samples_per_pixel as int,
                q,
            ),
{
    let ghost pinned = scene_all_miss(*scene) && max_depth >= 1;
    let mut j: usize = img_height;
    while j > 0
        invariant
            imgbuf.len() == 3 * img_width * img_height,
            j <= img_height,
            pinned ==> forall|q: int|
                0 <= q < 3 * (((img_height - j) as int) * (img_width as int))
                    ==> #[trigger] imgbuf[q] == miss_byte(
                    background,
                    samples_per_pixel as int,
                    q,
                ),
        decreases j,
    {
        j = j - 1;
        let row = img_height - 1 - j;
        proof {
            assert(3 * ((row as int) * (img_width as int)) <= 3 * (img_width as int)
                * (img_height as int)) by (nonlinear_arith)
                requires
                    row < img_height,
            ;
        }
        let mut i: usize = 0;
        while i < img_width
            invariant
                imgbuf.len() == 3 * img_width * img_height,
                i <= img_width,
                j < img_height,
                row == img_height - 1 - j,
                pinned ==> forall|q: int|
                    0 <= q < 3 * ((row as int) * (img_width as int) + i as int)
                        ==> #[trigger] imgbuf[q] == miss_byte(
                        background,
                        samples_per_pixel as int,
                        q,
                    ),
            decreases img_width - i,
        {
            let mut pixel_color = Vec3 { x: 0i128, y: 0i128, z: 0i128 };
            let mut s: usize = 0;
            while s < samples_per_pixel
                invariant
                    s <= samples_per_pixel,
                    vec_in_range(pixel_color, s as int * (2 * RAD_LIM as int)),
                    pinned ==> pixel_color.x == s as int * background.x && pixel_color.y
                        == s as int * background.y && pixel_color.z == s as int * background.z,
                decreases samples_per_pixel - s,
            {
                let u = sample_coord(i, img_width);
                let v = sample_coord(j, img_height);
                let ray = cam.get_ray(u, v);
                let c = ray_color(ray, background, scene, max_depth);
                proof {
                    if pinned {
                        assert(c == background);
                        assert((s as int + 1) * background.x == s as int * background.x
                            + background.x) by (nonlinear_arith);
                        assert((s as int + 1) * background.y == s as int * background.y
                            + background.y) by (nonlinear_arith);
                        assert((s as int + 1) * background.z == s as int * background.z
                            + background.z) by (nonlinear_arith);
                    }
                }
                pixel_color = Vec3 {
                    x: pixel_color.x + c.x,
                    y: pixel_color.y + c.y,
                    z: pixel_color.z + c.z,
                };
                s = s + 1;
            }
            proof {
                assert(samples_per_pixel as int * (2 * RAD_LIM as int) <= 4 * RAD_LIM as int
                    * 1024) by (nonlinear_arith)
                    requires
                        samples_per_pixel <= 1024,
                ;
                if pinned {
                    lemma_mul_bound(
                        samples_per_pixel as int,
                        background.x as int,
                        1024,
                        COLOR_LIM as int,
                    );
                    lemma_mul_bound(
                        samples_per_pixel as int,
                        background.y as int,
                        1024,
                        COLOR_LIM as int,
                    );
                    lemma_mul_bound(
                        samples_per_pixel as int,
                        background.z as int,
                        1024,
                        COLOR_LIM as int,
                    );
                }
            }
            let avg = Vec3 {
                x: scale_down(pixel_color.x),
                y: scale_down(pixel_color.y),
                z: scale_down(pixel_color.z),
            };
            proof {
                assert(3 * ((row as int) * (img_width as int) + i as int) + 2 < 3 * (
                img_width as int) * (img_height as int)) by (nonlinear_arith)
                    requires
                        row < img_height,
                        i < img_width,
                ;
            }
            write_color(imgbuf, i, row, img_width, avg, samples_per_pixel);
            proof {
                if pinned {
                    let base = 3 * ((row as int) * (img_width as int) + i as int);
                    assert(base % 3 == 0 && (base + 1) % 3 == 1 && (base + 2) % 3 == 2)
                        by (nonlinear_arith)
                        requires
                            base == 3 * ((row as int) * (img_width as int) + i as int),
                    ;
                    assert(imgbuf[base] == miss_byte(background, samples_per_pixel as int, base));
                    assert(imgbuf[base + 1] == miss_byte(
                        background,
                        samples_per_pixel as int,
                        base + 1,
                    ));
                    assert(imgbuf[base + 2] == miss_byte(
                        background,
                        samples_per_pixel as int,
                        base + 2,
                    ));
                }
            }
            i = i + 1;
        }
        proof {
            assert(3 * ((row as int) * (img_width as int) + img_width as int) == 3 * (((
            img_height - j) as int) * (img_width as int))) by (nonlinear_arith)
                requires
                    row == img_height - 1 - j,
            ;
        }
    }
    proof {
        assert(3 * ((img_height as int) * (img_width as int)) == 3 * (img_width as int)
            * (img_height as int)) by (nonlinear_arith);
    }
}

/// A sum of up to 1024 bounded samples brought back into the per-pixel
/// accumulation range (the per-sample cap times the sample budget).
fn scale_down(c: i128) -> (r: i128)
    requires
        -2251799813685248 <= c <= 2251799813685248,
    ensures
        -4 * RAD_LIM <= r <= 4 * RAD_LIM,
        -4 * RAD_LIM <= c <= 4 * RAD_LIM ==> r == c,
{
    if c > 4 * RAD_LIM {
        4 * RAD_LIM
    } else if c < -4 * RAD_LIM {
        -4 * RAD_LIM
    } else {
        c
    }
}

/// The jittered viewport coordinate of a pixel index: (i + u) / (extent - 1)
/// for a uniform u in [0, 1), clamped into [0, 1].
fn sample_coord(i: usize, extent: usize) -> (c: i128)
    requires
        2 <= extent <= 16384,
        i < extent,
    ensures
        0 <= c <= SCALE,
{
    let jitter = random();
    proof {
        lemma_mul_bound(i as int, SCALE as int, 16384, SCALE as int);
        lemma_tdiv_bounds(
            (i as int) * (SCALE as int) + jitter as int,
            (extent as int - 1),
        );
    }
    let num: i128 = (i as i128) * SCALE + jitter;
    let den: i128 = (extent as i128 - 1) * SCALE;
    let q = fx_div_plain(num, den);
    if q > SCALE {
        SCALE
    } else if q < 0 {
        0
    } else {
        q
    }
}

/// (a * SCALE) / b for positive operands within the sampling ranges.
fn fx_div_plain(a: i128, b: i128) -> (q: i128)
    requires
        0 <= a <= 2147483648,
        1 <= b <= 2147483648,
    ensures
        q == fx_div_spec(a as int, b as int),
        q >= 0,
{
    proof {
        lemma_mul_bound(a as int, SCALE as int, 2147483648, SCALE as int);
        lemma_tdiv_bounds(a as int * SCALE as int, b as int);
    }
    crate::fx::tdiv_i(a * SCALE, b)
}

/// The value an all-miss worker pass stores at buffer index `q`.
pub open spec fn miss_worker_value(bg: Rgb, spt: int, n: int, q: int) -> int {
    if q % 3 == 0 {
        worker_channel_spec(spt * bg.x, spt, n)
    } else if q % 3 == 1 {
        worker_channel_spec(spt * bg.y, spt, n)
    } else {
        worker_channel_spec(spt * bg.z, spt, n)
    }
}

/// The value an all-miss frame pass stores at buffer index `q`.
pub open spec fn miss_frame_value(bg: Rgb, spt: int, n: int, q: int) -> int {
    if q % 3 == 0 {
        frame_channel_spec(spt * bg.x, spt, n)
    } else if q % 3 == 1 {
        frame_channel_spec(spt * bg.y, spt, n)
    } else {
        frame_channel_spec(spt * bg.z, spt, n)
    }
}

/// One worker's full-image pass at its share of the sample budget: a
/// fixed-point framebuffer, tone-mapped per pixel and divided by the
/// worker count, ready for elementwise merging.  On an all-miss scene
/// every entry is pinned to the background's transform.
#[verifier::loop_isolation(false)]
pub fn render_worker(
    background: Rgb,
    img_width: usize,
    img_height: usize,
    samples_per_thread: usize,
    thread_cam: &Camera,
    thread_scene: &SceneColliders,
    max_depth: usize,
    n_threads: usize,
) -> (sub: Vec<i128>)
    requires
        thread_scene.wf(),
        cam_wf(*thread_cam),
        vec_in_range(background, COLOR_LIM as int),
        2 <= img_width <= 16384,
        2 <= img_height <= 16384,
        1 <= samples_per_thread <= 1024,
        1 <= n_threads <= 1024,
    ensures
        sub.len() == 3 * img_width * img_height,
        forall|k: int| 0 <= k < sub.len() ==> 0 <= #[trigger] sub[k] <= 256 * SCALE,
        scene_all_miss(*thread_scene) && max_depth >= 1 ==> forall|q: int|
            0 <= q < sub.len() ==> sub[q] == miss_worker_value(
                background,
                samples_per_thread as int,
                n_threads as int,
                q,
            ),
{
    let ghost pinned = scene_all_miss(*thread_scene) && max_depth >= 1;
    let mut sub: Vec<i128> = Vec::new();
    let mut j: usize = img_height;
    while j > 0
        invariant
            sub.len() == 3 * img_width * ((img_height - j) as int),
            sub.len() % 3 == 0,
            j <= img_height,
            forall|k: int| 0 <= k < sub.len() ==> 0 <= #[trigger] sub[k] <= 256 * SCALE,
            pinned ==> forall|q: int|
                0 <= q < sub.len() ==> sub[q] == miss_worker_value(
                    background,
                    samples_per_thread as int,
                    n_threads as int,
                    q,
                ),
        decreases j,
    {
        j = j - 1;
        let mut i: usize = 0;
        while i < img_width
            invariant
                sub.len() == 3 * img_width * ((img_height - j - 1) as int) + 3 * i,
                sub.len() % 3 == 0,
                i <= img_width,
                j < img_height,
                forall|k: int| 0 <= k < sub.len() ==> 0 <= #[trigger] sub[k] <= 256 * SCALE,
                pinned ==> forall|q: int|
                    0 <= q < sub.len() ==> sub[q] == miss_worker_value(
                        background,
                        samples_per_thread as int,
                        n_threads as int,
                        q,
                    ),
            decreases img_width - i,
        {
            let mut pixel_color = Vec3 { x: 0i128, y: 0i128, z: 0i128 };
            let mut s: usize = 0;
            while s < samples_per_thread
                invariant
                    s <= samples_per_thread,
                    vec_in_range(pixel_color, s as int * (2 * RAD_LIM as int)),
                    pinned ==> pixel_color.x == s as int * background.x && pixel_color.y
                        == s as int * background.y && pixel_color.z == s as int * background.z,
                decreases samples_per_thread - s,
            {
                let u = sample_coord(i, img_width);
                let v = sample_coord(j, img_height);
                let ray = thread_cam.get_ray(u, v);
                let c = ray_color(ray, background, thread_scene, max_depth);
                proof {
                    if pinned {
                        assert(c == background);
                        assert((s as int + 1) * background.x == s as int * background.x
                            + background.x) by (nonlinear_arith);
                        assert((s as int + 1) * background.y == s as int * background.y
                            + background.y) by (nonlinear_arith);
                        assert((s as int + 1) * background.z == s as int * background.z
                            + background.z) by (nonlinear_arith);
                    }
                }
                pixel_color = Vec3 {
                    x: pixel_color.x + c.x,
                    y: pixel_color.y + c.y,
                    z: pixel_color.z + c.z,
                };
                s = s + 1;
            }
            proof {
                assert(samples_per_thread as int * (2 * RAD_LIM as int) <= 4 * RAD_LIM as int
                    * 1024) by (nonlinear_arith)
                    requires
                        samples_per_thread <= 1024,
                ;
                if pinned {
                    lemma_mul_bound(
                        samples_per_thread as int,
                        background.x as int,
                        1024,
                        COLOR_LIM as int,
                    );
                    lemma_mul_bound(
                        samples_per_thread as int,
                        background.y as int,
                        1024,
                        COLOR_LIM as int,
                    );
                    lemma_mul_bound(
                        samples_per_thread as int,
                        background.z as int,
                        1024,
                        COLOR_LIM as int,
                    );
                }
            }
            let ir = worker_channel(scale_down(pixel_color.x), samples_per_thread, n_threads);
            let ig = worker_channel(scale_down(pixel_color.y), samples_per_thread, n_threads);
            let ib = worker_channel(scale_down(pixel_color.z), samples_per_thread, n_threads);
            let ghost len0 = sub.len() as int;
            sub.push(ir);
            sub.push(ig);
            sub.push(ib);
            proof {
                if pinned {
                    assert(len0 % 3 == 0 && (len0 + 1) % 3 == 1 && (len0 + 2) % 3 == 2);
                }
            }
            i = i + 1;
        }
        proof {
            assert(3 * img_width as int * ((img_height - j - 1) as int) + 3 * img_width as int
                == 3 * img_width as int * ((img_height - j) as int)) by (nonlinear_arith);
        }
    }
    proof {
        assert(3 * img_width as int * ((img_height - 0) as int) == 3 * img_width as int
            * img_height as int) by (nonlinear_arith);
    }
    sub
}

/// One channel of a worker's output: averaged, gamma-corrected, scaled to
/// the display range and divided by the worker count.
fn worker_channel(c: i128, spp: usize, n_threads: usize) -> (r: i128)
    requires
        -4 * RAD_LIM <= c <= 4 * RAD_LIM,
        1 <= spp <= 1024,
        1 <= n_threads <= 1024,
    ensures
        0 <= r <= 256 * SCALE,
        r == worker_channel_spec(c as int, spp as int, n_threads as int),
{
    proof {
        lemma_tdiv_bounds(c as int, spp as int);
    }
    let scaled = crate::fx::tdiv_i(c, spp as i128);
    let nn = if scaled >= 0 { scaled } else { 0 };
    let capped = if nn <= FX_LIM { nn } else { FX_LIM };
    let g = fx_sqrt(capped);
    let cl = if g > 65470 { 65470 } else { g };
    proof {
        assert(g >= 0);
        lemma_mul_bound(256, cl as int, 256, 65470);
        lemma_tdiv_bounds(256 * cl as int, n_threads as int);
    }
    crate::fx::tdiv_i(256 * cl, n_threads as i128)
}

/// Adds a worker's framebuffer into the shared accumulator, elementwise.
pub fn accumulate(global: &mut Vec<i128>, sub: &Vec<i128>)
    requires
        old(global).len() == sub.len(),
        forall|k: int| 0 <= k < old(global).len() ==> 0 <= #[trigger] old(global)[k] <= FX_LIM,
        forall|k: int| 0 <= k < sub.len() ==> 0 <= #[trigger] sub[k] <= 256 * SCALE,
    ensures
        final(global).len() == old(global).len(),
        forall|k: int|
            0 <= k < final(global).len() ==> final(global)[k] == old(global)[k] + sub[k],
{
    let mut k: usize = 0;
    while k < global.len()
        invariant
            global.len() == sub.len(),
            k <= global.len(),
            forall|i: int| k <= i < global.len() ==> #[trigger] global[i] == old(global)[i],
            forall|i: int|
                0 <= i < k ==> #[trigger] global[i] == old(global)[i] + sub[i],
            forall|i: int| 0 <= i < global.len() ==> 0 <= #[trigger] old(global)[i] <= FX_LIM,
            forall|i: int| 0 <= i < sub.len() ==> 0 <= #[trigger] sub[i] <= 256 * SCALE,
        decreases global.len() - k,
    {
        let v = global[k] + sub[k];
        global.set(k, v);
        k = k + 1;
    }
}

/// Quantizes an accumulated fixed-point framebuffer to bytes.
pub fn finalize_buffer(global: &Vec<i128>) -> (out: Vec<u8>)
    requires
        forall|k: int| 0 <= k < global.len() ==> 0 <= #[trigger] global[k],
    ensures
        out.len() == global.len(),
        forall|k: int|
            0 <= k < out.len() ==> out[k] == (if global[k] / 256 > 255 {
                255int
            } else {
                tdiv(global[k] as int, 256)
            }),
{
    let mut out: Vec<u8> = Vec::new();
    let mut k: usize = 0;
    while k < global.len()
        invariant
            k <= global.len(),
            out.len() == k,
            forall|i: int| 0 <= i < global.len() ==> 0 <= #[trigger] global[i],
            forall|i: int|
                0 <= i < k ==> out[i] == (if global[i] / 256 > 255 {
                    255int
                } else {
                    tdiv(global[i] as int, 256)
                }),
        decreases global.len() - k,
    {
        proof {
            lemma_tdiv_bounds(global[k as int] as int, 256);
        }
        let q = global[k] / 256;
        let b: u8 = if q > 255 {
            255
        } else {
            q as u8
        };
        out.push(b);
        k = k + 1;
    }
    out
}

/// The per-worker share of a sample budget.
pub fn samples_per_thread(samples_per_pixel: usize, n_threads: usize) -> (share: usize)
    requires
        n_threads >= 1,
    ensures
        share == samples_per_pixel as int / n_threads as int,
{
    samples_per_pixel / n_threads
}

/// One worker's pass for progressive display: like `render_worker`, but
/// the channels stay in the unit range (no byte scaling), divided by the
/// worker count for frame averaging.
#[verifier::loop_isolation(false)]
pub fn render_frame_worker(
    background: Rgb,
    img_width: usize,
    img_height: usize,
    samples_per_thread: usize,
    thread_cam: &Camera,
    thread_scene: &SceneColliders,
    max_depth: usize,
    n_threads: usize,
) -> (sub: Vec<i128>)
    requires
        thread_scene.wf(),
        cam_wf(*thread_cam),
        vec_in_range(background, COLOR_LIM as int),
        2 <= img_width <= 16384,
        2 <= img_height <= 16384,
        1 <= samples_per_thread <= 1024,
        1 <= n_threads <= 1024,
    ensures
        sub.len() == 3 * img_width * img_height,
        forall|k: int| 0 <= k < sub.len() ==> 0 <= #[trigger] sub[k] <= SCALE,
        scene_all_miss(*thread_scene) && max_depth >= 1 ==> forall|q: int|
            0 <= q < sub.len() ==> sub[q] == miss_frame_value(
                background,
                samples_per_thread as int,
                n_threads as int,
                q,
            ),
{
    let ghost pinned = scene_all_miss(*thread_scene) && max_depth >= 1;
    let mut sub: Vec<i128> = Vec::new();
    let mut j: usize = img_height;
    while j > 0
        invariant
            sub.len() == 3 * img_width * ((img_height - j) as int),
            sub.len() % 3 == 0,
            j <= img_height,
            forall|k: int| 0 <= k < sub.len() ==> 0 <= #[trigger] sub[k] <= SCALE,
            pinned ==> forall|q: int|
                0 <= q < sub.len() ==> sub[q] == miss_frame_value(
                    background,
                    samples_per_thread as int,
                    n_threads as int,
                    q,
                ),
        decreases j,
    {
        j = j - 1;
        let mut i: usize = 0;
        while i < img_width
            invariant
                sub.len() == 3 * img_width * ((img_height - j - 1) as int) + 3 * i,
                sub.len() % 3 == 0,
                i <= img_width,
                j < img_height,
                forall|k: int| 0 <= k < sub.len() ==> 0 <= #[trigger] sub[k] <= SCALE,
                pinned ==> forall|q: int|
                    0 <= q < sub.len() ==> sub[q] == miss_frame_value(
                        background,
                        samples_per_thread as int,
                        n_threads as int,
                        q,
                    ),
            decreases img_width - i,
        {
            let mut pixel_color = Vec3 { x: 0i128, y: 0i128, z: 0i128 };
            let mut s: usize = 0;
            while s < samples_per_thread
                invariant
                    s <= samples_per_thread,
                    vec_in_range(pixel_color, s as int * (2 * RAD_LIM as int)),
                    pinned ==> pixel_color.x == s as int * background.x && pixel_color.y
                        == s as int * background.y && pixel_color.z == s as int * background.z,
                decreases samples_per_thread - s,
            {
                let u = sample_coord(i, img_width);
                let v = sample_coord(j, img_height);
                let ray = thread_cam.get_ray(u, v);
                let c = ray_color(ray, background, thread_scene, max_depth);
                proof {
                    if pinned {
                        assert(c == background);
                        assert((s as int + 1) * background.x == s as int * background.x
                            + background.x) by (nonlinear_arith);
                        assert((s as int + 1) * background.y == s as int * background.y
                            + background.y) by (nonlinear_arith);
                        assert((s as int + 1) * background.z == s as int * background.z
                            + background.z) by (nonlinear_arith);
                    }
                }
                pixel_color = Vec3 {
                    x: pixel_color.x + c.x,
                    y: pixel_color.y + c.y,
                    z: pixel_color.z + c.z,
                };
                s = s + 1;
            }
            proof {
                assert(samples_per_thread as int * (2 * RAD_LIM as int) <= 4 * RAD_LIM as int
                    * 1024) by (nonlinear_arith)
                    requires
                        samples_per_thread <= 1024,
                ;
                if pinned {
                    lemma_mul_bound(
                        samples_per_thread as int,
                        background.x as int,
                        1024,
                        COLOR_LIM as int,
                    );
                    lemma_mul_bound(
                        samples_per_thread as int,
                        background.y as int,
                        1024,
                        COLOR_LIM as int,
                    );
                    lemma_mul_bound(
                        samples_per_thread as int,
                        background.z as int,
                        1024,
                        COLOR_LIM as int,
                    );
                }
            }
            let ir = frame_channel(scale_down(pixel_color.x), samples_per_thread, n_threads);
            let ig = frame_channel(scale_down(pixel_color.y), samples_per_thread, n_threads);
            let ib = frame_channel(scale_down(pixel_color.z), samples_per_thread, n_threads);
            let ghost len0 = sub.len() as int;
            sub.push(ir);
            sub.push(ig);
            sub.push(ib);
            proof {
                if pinned {
                    assert(len0 % 3 == 0 && (len0 + 1) % 3 == 1 && (len0 + 2) % 3 == 2);
                }
            }
            i = i + 1;
        }
        proof {
            assert(3 * img_width as int * ((img_height - j - 1) as int) + 3 * img_width as int
                == 3 * img_width as int * ((img_height - j) as int)) by (nonlinear_arith);
        }
    }
    proof {
        assert(3 * img_width as int * ((img_height - 0) as int) == 3 * img_width as int
            * img_height as int) by (nonlinear_arith);
    }
    sub
}

/// One channel of a progressive frame: averaged, gamma-corrected, clamped
/// into the unit range and divided by the worker count.
fn frame_channel(c: i128, spp: usize, n_threads: usize) -> (r: i128)
    requires
        -4 * RAD_LIM <= c <= 4 * RAD_LIM,
        1 <= spp <= 1024,
        1 <= n_threads <= 1024,
    ensures
        0 <= r <= SCALE,
        r == frame_channel_spec(c as int, spp as int, n_threads as int),
{
    proof {
        lemma_tdiv_bounds(c as int, spp as int);
    }
    let scaled = crate::fx::tdiv_i(c, spp as i128);
    let nn = if scaled >= 0 { scaled } else { 0 };
    let capped = if nn <= FX_LIM { nn } else { FX_LIM };
    let g = fx_sqrt(capped);
    let cl = if g > 65470 { 65470 } else { g };
    proof {
        assert(g >= 0);
        lemma_tdiv_bounds(cl as int, n_threads as int);
    }
    crate::fx::tdiv_i(cl, n_threads as i128)
}

} // verus!