//! The camera: a viewport built from a look-at frame, with depth of field.

use vstd::prelude::*;
use crate::fx::{SCALE, WMAX, FX_LIM, tdiv, fx_mul_spec, fx_div_spec, fx_mul, fx_div, lemma_fx_mul_val_bound};
use crate::vec3::{
    Vec3, Point3, vec_in_range, unit_or_default, unit_or_default_spec, cross_x, cross_y, cross_z,
    random_in_unit_disk, length_squared_spec, LLIM,
};
use crate::ray::Ray;
use crate::collider::{OLIM, DLIM, ray_in_range};
use crate::trig::{fx_tan, fx_sin_spec, fx_cos_spec};
use crate::utils::to_radians;

verus! {

/// Cap on the derived viewport vectors.
pub const CAMV_LIM: i128 = 70368744177664;

pub struct Camera {
    pub look_from: Point3,
    pub look_at: Point3,
    pub vup: Vec3,
    pub theta: i128,
    pub h: i128,
    pub aspect_ratio: i128,
    pub aperture: i128,
    pub focus_dist: i128,
    pub lens_radius: i128,
    pub u: Vec3,
    pub v: Vec3,
    pub w: Vec3,
    pub viewport_height: i128,
    pub viewport_width: i128,
    pub focal_length: i128,
    pub origin: Point3,
    pub horizontal: Vec3,
    pub vertical: Vec3,
    pub lower_left: Vec3,
}

/// The bounds `get_ray` needs of a camera.
pub open spec fn cam_wf(c: Camera) -> bool {
    &&& vec_in_range(c.origin, WMAX as int)
    &&& vec_in_range(c.u, 9 * SCALE as int)
    &&& vec_in_range(c.v, 9 * SCALE as int)
    &&& vec_in_range(c.w, 9 * SCALE as int)
    &&& 0 <= c.lens_radius <= 536870912
    &&& vec_in_range(c.horizontal, CAMV_LIM as int)
    &&& vec_in_range(c.vertical, CAMV_LIM as int)
    &&& vec_in_range(c.lower_left, CAMV_LIM as int)
}

/// The ray `get_ray` builds from a given lens-disk sample: the lens
/// offset in the camera frame, then the viewport direction, normalized if
/// it leaves the supported range.
pub open spec fn get_ray_spec(c: Camera, s: i128, t: i128, rd0: Vec3) -> Ray {
    let rdx = fx_mul_spec(rd0.x as int, c.lens_radius as int);
    let rdy = fx_mul_spec(rd0.y as int, c.lens_radius as int);
    let ox = (fx_mul_spec(c.u.x as int, rdx) + fx_mul_spec(c.v.x as int, rdy)) as i128;
    let oy = (fx_mul_spec(c.u.y as int, rdx) + fx_mul_spec(c.v.y as int, rdy)) as i128;
    let oz = (fx_mul_spec(c.u.z as int, rdx) + fx_mul_spec(c.v.z as int, rdy)) as i128;
    let origin = Vec3 {
        x: (c.origin.x + ox) as i128,
        y: (c.origin.y + oy) as i128,
        z: (c.origin.z + oz) as i128,
    };
    let raw = Vec3 {
        x: (c.lower_left.x + fx_mul_spec(c.horizontal.x as int, s as int) + fx_mul_spec(
            c.vertical.x as int,
            t as int,
        ) - c.origin.x - ox) as i128,
        y: (c.lower_left.y + fx_mul_spec(c.horizontal.y as int, s as int) + fx_mul_spec(
            c.vertical.y as int,
            t as int,
        ) - c.origin.y - oy) as i128,
        z: (c.lower_left.z + fx_mul_spec(c.horizontal.z as int, s as int) + fx_mul_spec(
            c.vertical.z as int,
            t as int,
        ) - c.origin.z - oz) as i128,
    };
    let dir = if raw.x < -DLIM || raw.x > DLIM || raw.y < -DLIM || raw.y > DLIM || raw.z < -DLIM
        || raw.z > DLIM {
        unit_or_default_spec(raw)
    } else {
        raw
    };
    Ray { origin, direction: dir, time: 0 }
}

impl Camera {
    /// Builds the camera frame and viewport.  The vertical field of view
    /// is in degrees; its tangent must stay within 32 units (fields of
    /// view approaching a half turn are out of range).
    #[verifier::rlimit(100)]
    #[verifier::spinoff_prover]
    pub fn new(
        look_from: Point3,
        look_at: Point3,
        vup: Vec3,
        vfov: i128,
        aperture: i128,
        focus_dist: i128,
        aspect_ratio: i128,
    ) -> (c: Camera)
        requires
            vec_in_range(look_from, WMAX as int),
            vec_in_range(look_at, WMAX as int),
            vec_in_range(vup, WMAX as int),
            0 < vfov <= 36000 * SCALE,
            0 <= aperture <= 1073741824,
            1 <= focus_dist <= WMAX,
            1 <= aspect_ratio <= 16 * SCALE,
            fx_cos_spec(tdiv(crate::utils::to_radians_spec(vfov as int), 2)) > 0,
            -32 * SCALE <= fx_div_spec(
                fx_sin_spec(tdiv(crate::utils::to_radians_spec(vfov as int), 2)),
                fx_cos_spec(tdiv(crate::utils::to_radians_spec(vfov as int), 2)),
            ) <= 32 * SCALE,
        ensures
            cam_wf(c),
            c.origin == look_from,
            c.look_from == look_from,
            c.look_at == look_at,
            c.lens_radius == tdiv(aperture as int, 2),
            c.w == unit_or_default_spec(
                Vec3 {
                    x: (look_from.x - look_at.x) as i128,
                    y: (look_from.y - look_at.y) as i128,
                    z: (look_from.z - look_at.z) as i128,
                },
            ),
            c.theta == crate::utils::to_radians_spec(vfov as int),
            c.h == fx_div_spec(
                fx_sin_spec(tdiv(crate::utils::to_radians_spec(vfov as int), 2)),
                fx_cos_spec(tdiv(crate::utils::to_radians_spec(vfov as int), 2)),
            ),
            c.viewport_height == 2 * c.h,
            c.viewport_width == fx_mul_spec(aspect_ratio as int, 2 * c.h as int),
            c.focal_length == SCALE,
            c.aperture == aperture,
            c.focus_dist == focus_dist,
            c.aspect_ratio == aspect_ratio,
            c.vup == vup,
            ({
                let cu = Vec3 {
                    x: crate::vec3::cross_x(vup, c.w) as i128,
                    y: crate::vec3::cross_y(vup, c.w) as i128,
                    z: crate::vec3::cross_z(vup, c.w) as i128,
                };
                c.u == unit_or_default_spec(cu)
            }),
            c.v.x == crate::vec3::cross_x(c.w, c.u) && c.v.y == crate::vec3::cross_y(c.w, c.u)
                && c.v.z == crate::vec3::cross_z(c.w, c.u),
            c.horizontal.x == fx_mul_spec(fx_mul_spec(c.u.x as int, focus_dist as int), c.viewport_width as int)
                && c.horizontal.y == fx_mul_spec(
                fx_mul_spec(c.u.y as int, focus_dist as int),
                c.viewport_width as int,
            ) && c.horizontal.z == fx_mul_spec(
                fx_mul_spec(c.u.z as int, focus_dist as int),
                c.viewport_width as int,
            ),
            c.vertical.x == fx_mul_spec(fx_mul_spec(c.v.x as int, focus_dist as int), c.viewport_height as int)
                && c.vertical.y == fx_mul_spec(
                fx_mul_spec(c.v.y as int, focus_dist as int),
                c.viewport_height as int,
            ) && c.vertical.z == fx_mul_spec(
                fx_mul_spec(c.v.z as int, focus_dist as int),
                c.viewport_height as int,
            ),
            c.lower_left.x == c.origin.x - fx_div_spec(c.horizontal.x as int, 2 * SCALE as int)
                - fx_div_spec(c.vertical.x as int, 2 * SCALE as int) - fx_mul_spec(
                c.w.x as int,
                focus_dist as int,
            ) && c.lower_left.y == c.origin.y - fx_div_spec(
                c.horizontal.y as int,
                2 * SCALE as int,
            ) - fx_div_spec(c.vertical.y as int, 2 * SCALE as int) - fx_mul_spec(
                c.w.y as int,
                focus_dist as int,
            ) && c.lower_left.z == c.origin.z - fx_div_spec(
                c.horizontal.z as int,
                2 * SCALE as int,
            ) - fx_div_spec(c.vertical.z as int, 2 * SCALE as int) - fx_mul_spec(
                c.w.z as int,
                focus_dist as int,
            ),
    {
        let theta = to_radians(vfov);
        let h = fx_tan(theta / 2);
        proof {
            lemma_fx_mul_val_bound(aspect_ratio as int, 2 * h as int, 1048576, 4194304);
        }
        let viewport_height: i128 = 2 * h;
        let viewport_width = fx_mul(aspect_ratio, viewport_height);
        let focal_length: i128 = SCALE;
        let dirv = look_from.sub(look_at);
        let w = unit_or_default(dirv);
        let cu = vup.cross(w);
        proof {
            lemma_fx_mul_val_bound(vup.x as int, w.y as int, WMAX as int, 131072);
            lemma_fx_mul_val_bound(vup.x as int, w.z as int, WMAX as int, 131072);
            lemma_fx_mul_val_bound(vup.y as int, w.x as int, WMAX as int, 131072);
            lemma_fx_mul_val_bound(vup.y as int, w.z as int, WMAX as int, 131072);
            lemma_fx_mul_val_bound(vup.z as int, w.x as int, WMAX as int, 131072);
            lemma_fx_mul_val_bound(vup.z as int, w.y as int, WMAX as int, 131072);
        }
        let u = unit_or_default(cu);
        proof {
            lemma_fx_mul_val_bound(w.x as int, u.y as int, 131072, 131072);
            lemma_fx_mul_val_bound(w.x as int, u.z as int, 131072, 131072);
            lemma_fx_mul_val_bound(w.y as int, u.x as int, 131072, 131072);
            lemma_fx_mul_val_bound(w.y as int, u.z as int, 131072, 131072);
            lemma_fx_mul_val_bound(w.z as int, u.x as int, 131072, 131072);
            lemma_fx_mul_val_bound(w.z as int, u.y as int, 131072, 131072);
        }
        let v = w.cross(u);
        let origin = look_from;
        proof {
            lemma_cam_scale_bounds();
        }
        let uf = u.scale(focus_dist);
        let horizontal = uf.scale(viewport_width);
        let vf = v.scale(focus_dist);
        let vertical = vf.scale(viewport_height);
        let lens_radius = aperture / 2;
        let half_h = horizontal.div_scalar(2 * SCALE);
        let half_v = vertical.div_scalar(2 * SCALE);
        let wf_ = w.scale(focus_dist);
        let lower_left = origin.sub(half_h).sub(half_v).sub(wf_);
        Camera {
            look_at,
            look_from,
            vup,
            theta,
            h,
            aspect_ratio,
            aperture,
            focus_dist,
            lens_radius,
            viewport_height,
            viewport_width,
            focal_length,
            u,
            v,
            w,
            origin,
            horizontal,
            vertical,
            lower_left,
        }
    }

    /// One primary ray through viewport coordinates (s, t) in [0, 1],
    /// jittered by the lens aperture: exactly `get_ray_spec` of the drawn
    /// lens-disk sample, and fully deterministic at aperture zero.
    pub fn get_ray(&self, s: i128, t: i128) -> (r: Ray)
        requires
            cam_wf(*self),
            0 <= s <= SCALE,
            0 <= t <= SCALE,
        ensures
            ray_in_range(r),
            r.time == 0,
            exists|rd0: Vec3|
                {
                    &&& vec_in_range(rd0, SCALE as int)
                    &&& 0 < length_squared_spec(rd0) < SCALE
                    &&& rd0.z == 0
                    &&& r == get_ray_spec(*self, s, t, rd0)
                },
            self.lens_radius == 0 ==> r == get_ray_spec(
                *self,
                s,
                t,
                Vec3 { x: 0, y: 0, z: 0 },
            ),
    {
        let rd0 = random_in_unit_disk();
        let rd = rd0.scale(self.lens_radius);
        proof {
            lemma_fx_mul_val_bound(rd0.x as int, self.lens_radius as int, 65536, 536870912);
            lemma_fx_mul_val_bound(rd0.y as int, self.lens_radius as int, 65536, 536870912);
            lemma_fx_mul_val_bound(rd0.z as int, self.lens_radius as int, 65536, 536870912);
            lemma_cam_offset_bounds();
        }
        let ox = fx_mul(self.u.x, rd.x) + fx_mul(self.v.x, rd.y);
        let oy = fx_mul(self.u.y, rd.x) + fx_mul(self.v.y, rd.y);
        let oz = fx_mul(self.u.z, rd.x) + fx_mul(self.v.z, rd.y);
        let offset = Vec3 { x: ox, y: oy, z: oz };
        let origin = self.origin.add(offset);
        proof {
            lemma_cam_dir_bounds();
        }
        let hs = self.horizontal.scale(s);
        let vt = self.vertical.scale(t);
        let raw_dir = self.lower_left.add(hs).add(vt).sub(self.origin).sub(offset);
        let dir = if raw_dir.x < -DLIM || raw_dir.x > DLIM || raw_dir.y < -DLIM || raw_dir.y
            > DLIM || raw_dir.z < -DLIM || raw_dir.z > DLIM {
            unit_or_default(raw_dir)
        } else {
            raw_dir
        };
        let built = Ray { origin, direction: dir, time: 0 };
        proof {
            assert(built == get_ray_spec(*self, s, t, rd0));
            if self.lens_radius == 0 {
                assert(forall|a: int| #[trigger] fx_mul_spec(a, 0) == 0) by {
                    assert forall|a: int| #[trigger] fx_mul_spec(a, 0) == 0 by {
                        assert(a * 0 == 0) by (nonlinear_arith);
                        assert(crate::fx::tdiv(0, SCALE as int) == 0);
                    };
                };
                assert(built == get_ray_spec(*self, s, t, Vec3 { x: 0, y: 0, z: 0 }));
            }
        }
        built
    }
}

/// Bounds for the viewport scaling products in `Camera::new`.
proof fn lemma_cam_scale_bounds()
    ensures
        forall|a: int, b: int|
            -131072 <= a <= 131072 && -WMAX <= b <= WMAX ==> -34359738369 <= #[trigger] fx_mul_spec(
                a,
                b,
            ) <= 34359738369,
        forall|a: int, b: int|
            -34359738369 <= a <= 34359738369 && -67108865 <= b <= 67108865 ==> -35184372614145
                <= #[trigger] fx_mul_spec(a, b) <= 35184372614145,
        forall|a: int, b: int|
            -589824 <= a <= 589824 && -WMAX <= b <= WMAX ==> -154618822657 <= #[trigger] fx_mul_spec(
                a,
                b,
            ) <= 154618822657,
        forall|a: int, b: int|
            -154618822657 <= a <= 154618822657 && -4194305 <= b <= 4194305 ==> -9895607009345
                <= #[trigger] fx_mul_spec(a, b) <= 9895607009345,
{
    assert forall|a: int, b: int|
        -131072 <= a <= 131072 && -WMAX <= b <= WMAX implies -34359738369 <= #[trigger] fx_mul_spec(
        a,
        b,
    ) <= 34359738369 by {
        lemma_fx_mul_val_bound(a, b, 131072, 17179869184);
    };
    assert forall|a: int, b: int|
        -34359738369 <= a <= 34359738369 && -67108865 <= b <= 67108865 implies -35184372614145
        <= #[trigger] fx_mul_spec(a, b) <= 35184372614145 by {
        lemma_fx_mul_val_bound(a, b, 34359738369, 67108865);
        assert(34359738369int * 67108865int / 65536int + 1 <= 35184372614145);
    };
    assert forall|a: int, b: int|
        -589824 <= a <= 589824 && -WMAX <= b <= WMAX implies -154618822657 <= #[trigger] fx_mul_spec(
        a,
        b,
    ) <= 154618822657 by {
        lemma_fx_mul_val_bound(a, b, 589824, 17179869184);
    };
    assert forall|a: int, b: int|
        -154618822657 <= a <= 154618822657 && -4194305 <= b <= 4194305 implies -9895607009345
        <= #[trigger] fx_mul_spec(a, b) <= 9895607009345 by {
        lemma_fx_mul_val_bound(a, b, 154618822657, 4194305);
    };
}

/// Bounds for the lens offset products in `get_ray`.
proof fn lemma_cam_offset_bounds()
    ensures
        forall|a: int, b: int|
            -589824 <= a <= 589824 && -536870913 <= b <= 536870913 ==> -4831838218
                <= #[trigger] fx_mul_spec(a, b) <= 4831838218,
{
    assert forall|a: int, b: int|
        -589824 <= a <= 589824 && -536870913 <= b <= 536870913 implies -4831838218
        <= #[trigger] fx_mul_spec(a, b) <= 4831838218 by {
        lemma_fx_mul_val_bound(a, b, 589824, 536870913);
    };
}

/// Bounds for the viewport sampling products in `get_ray`.
proof fn lemma_cam_dir_bounds()
    ensures
        forall|a: int, b: int|
            -CAMV_LIM <= a <= CAMV_LIM && 0 <= b <= SCALE ==> -(CAMV_LIM as int + 1)
                <= #[trigger] fx_mul_spec(a, b) <= CAMV_LIM as int + 1,
{
    assert forall|a: int, b: int|
        -CAMV_LIM <= a <= CAMV_LIM && 0 <= b <= SCALE implies -(CAMV_LIM as int + 1)
        <= #[trigger] fx_mul_spec(a, b) <= CAMV_LIM as int + 1 by {
        lemma_fx_mul_val_bound(a, b, CAMV_LIM as int, 65536);
    };
}

} // verus!
