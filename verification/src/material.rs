//! Hit records, orthonormal bases, and the material scattering model.

use vstd::prelude::*;
use vstd::math::abs;
use crate::fx::{
    SCALE, PI_FX, WMAX, FX_LIM, fx_mul_spec, fx_div_spec, fx_mul, fx_div, fx_sqrt, fx_abs,
    lemma_fx_mul_val_bound, lemma_tdiv_bounds,
};
use crate::vec3::{
    Vec3, Rgb, Point3, vec_in_range, dot_spec, length_squared_spec, length_spec, reflect, refract,
    reflect_spec, refract_spec, random_in_unit_sphere, random_in_unit_disk, lemma_dot_bound,
    unit_or_default, unit_or_default_spec, lemma_normalize_small, LLIM, RLIM,
};
use crate::ray::Ray;
use crate::texture::{Texture, TextureType, ImageTextureAtlas, same_texture, texture_wf, color_of};
use crate::utils::random;

verus! {

/// Working bound on hit points, normals and ray fields fed to scattering.
pub const MLIM: i128 = 17179869184;

pub struct HitRecord {
    pub point: Point3,
    pub normal: Vec3,
    pub material: Material,
    pub t: i128,
    pub u: i128,
    pub v: i128,
    pub front_face: bool,
}

impl HitRecord {
    /// A fresh record at a hit point: zero normal and texture coordinates,
    /// a placeholder black diffuse material, back-facing.
    pub fn new(point: Point3, t: i128) -> (r: HitRecord)
        ensures
            r.point == point,
            r.t == t,
            r.normal == (Vec3 { x: 0i128, y: 0i128, z: 0i128 }),
            r.u == 0 && r.v == 0,
            !r.front_face,
            r.material.mat_type matches MaterialType::Lambertian(tex) && tex.texture_type
                == TextureType::SolidColor(Vec3 { x: 0i128, y: 0i128, z: 0i128 }),
    {
        HitRecord {
            point,
            normal: Vec3::origin(),
            material: Material::lambertian(Texture::solid_color(Vec3::origin())),
            t,
            u: 0,
            v: 0,
            front_face: false,
        }
    }

    /// Orients the stored normal against the incoming ray: the front-face
    /// convention.
    pub fn set_face_normal(&mut self, r: Ray, out_normal: Vec3)
        requires
            vec_in_range(r.direction, LLIM as int),
            vec_in_range(out_normal, LLIM as int),
        ensures
            final(self).front_face == (dot_spec(r.direction, out_normal) < 0),
            final(self).front_face ==> final(self).normal == out_normal,
            !final(self).front_face ==> final(self).normal == (Vec3 {
                x: (-out_normal.x) as i128,
                y: (-out_normal.y) as i128,
                z: (-out_normal.z) as i128,
            }),
            final(self).point == old(self).point,
            final(self).t == old(self).t,
            final(self).u == old(self).u,
            final(self).v == old(self).v,
            final(self).material == old(self).material,
    {
        let d = r.direction.dot(out_normal);
        self.front_face = d < 0;
        self.normal = if self.front_face {
            out_normal
        } else {
            out_normal.neg()
        };
    }

    pub fn set_uv(&mut self, uv: (i128, i128))
        ensures
            final(self).u == uv.0,
            final(self).v == uv.1,
            final(self).point == old(self).point,
            final(self).t == old(self).t,
            final(self).normal == old(self).normal,
            final(self).front_face == old(self).front_face,
            final(self).material == old(self).material,
    {
        self.u = uv.0;
        self.v = uv.1;
    }
}

/// An orthonormal-ish basis built about a w axis.
pub struct ONB {
    pub u: Vec3,
    pub v: Vec3,
    pub w: Vec3,
}

/// Bound on the components of a basis built by `build_from_w`.
pub const ONB_LIM: i128 = 1048578;

impl ONB {
    /// Builds a basis whose w axis is the given direction normalized,
    /// pinned step by step: the helper axis is picked away from w, v is
    /// the normalized cross of the two, and u closes the frame; a
    /// degenerate cross falls back to canonical axes.  (The rounded
    /// normalizations make the frame orthonormal only approximately, so
    /// no exact orthogonality is claimed.)
    pub fn build_from_w(n: Vec3) -> (r: ONB)
        requires
            vec_in_range(n, LLIM as int),
        ensures
            r.w == unit_or_default_spec(n),
            vec_in_range(r.u, ONB_LIM as int),
            vec_in_range(r.v, ONB_LIM as int),
            vec_in_range(r.w, ONB_LIM as int),
            ({
                let w = unit_or_default_spec(n);
                let wax = if w.x < 0 {
                    -(w.x as int)
                } else {
                    w.x as int
                };
                let a = if wax > 58982 {
                    Vec3 { x: 0, y: SCALE, z: 0 }
                } else {
                    Vec3 { x: SCALE, y: 0, z: 0 }
                };
                let c = Vec3 {
                    x: crate::vec3::cross_x(w, a) as i128,
                    y: crate::vec3::cross_y(w, a) as i128,
                    z: crate::vec3::cross_z(w, a) as i128,
                };
                if length_squared_spec(c) > 0 {
                    r.v == unit_or_default_spec(c) && r.u.x == crate::vec3::cross_x(w, r.v)
                        && r.u.y == crate::vec3::cross_y(w, r.v) && r.u.z == crate::vec3::cross_z(
                        w,
                        r.v,
                    )
                } else {
                    r.u == (Vec3 { x: SCALE, y: 0, z: 0 }) && r.v == (Vec3 {
                        x: 0,
                        y: SCALE,
                        z: 0,
                    })
                }
            }),
    {
        let w = unit_or_default(n);
        let ax = fx_abs(w.x);
        let a = if ax > 58982 {
            Vec3 { x: 0, y: SCALE, z: 0 }
        } else {
            Vec3 { x: SCALE, y: 0, z: 0 }
        };
        let c = w.cross(a);
        proof {
            lemma_cross_range(w, a);
        }
        let cls = c.length_squared();
        if cls > 0 {
            let v = unit_or_default(c);
            let u = w.cross(v);
            proof {
                lemma_cross_range(w, v);
            }
            ONB { u, v, w }
        } else {
            ONB { u: Vec3 { x: SCALE, y: 0, z: 0 }, v: Vec3 { x: 0, y: SCALE, z: 0 }, w }
        }
    }

    /// The world-space vector with the given local coordinates:
    /// u * a.x + v * a.y + w * a.z.
    pub fn local(&self, a: Vec3) -> (r: Vec3)
        requires
            vec_in_range(self.u, ONB_LIM as int),
            vec_in_range(self.v, ONB_LIM as int),
            vec_in_range(self.w, ONB_LIM as int),
            vec_in_range(a, 2 * SCALE as int),
        ensures
            r.x == fx_mul_spec(self.u.x as int, a.x as int) + fx_mul_spec(
                self.v.x as int,
                a.y as int,
            ) + fx_mul_spec(self.w.x as int, a.z as int),
            r.y == fx_mul_spec(self.u.y as int, a.x as int) + fx_mul_spec(
                self.v.y as int,
                a.y as int,
            ) + fx_mul_spec(self.w.y as int, a.z as int),
            r.z == fx_mul_spec(self.u.z as int, a.x as int) + fx_mul_spec(
                self.v.z as int,
                a.y as int,
            ) + fx_mul_spec(self.w.z as int, a.z as int),
            vec_in_range(r, LLIM as int),
    {
        proof {
            lemma_local_bounds(self.u, self.v, self.w, a);
        }
        let p1 = self.u.scale(a.x);
        let p2 = self.v.scale(a.y);
        let p3 = self.w.scale(a.z);
        Vec3 { x: p1.x + p2.x + p3.x, y: p1.y + p2.y + p3.y, z: p1.z + p2.z + p3.z }
    }
}

/// The cross product of two vectors of at most a couple of units stays
/// within a few units.
proof fn lemma_cross_range(a: Vec3, b: Vec3)
    requires
        vec_in_range(a, 2 * SCALE as int),
        vec_in_range(b, 2 * SCALE as int),
    ensures
        -(2 * (8 * SCALE as int + 1)) <= crate::vec3::cross_x(a, b) <= 2 * (8 * SCALE as int + 1),
        -(2 * (8 * SCALE as int + 1)) <= crate::vec3::cross_y(a, b) <= 2 * (8 * SCALE as int + 1),
        -(2 * (8 * SCALE as int + 1)) <= crate::vec3::cross_z(a, b) <= 2 * (8 * SCALE as int + 1),
{
    lemma_fx_mul_val_bound(a.x as int, b.y as int, 131072, 131072);
    lemma_fx_mul_val_bound(a.x as int, b.z as int, 131072, 131072);
    lemma_fx_mul_val_bound(a.y as int, b.x as int, 131072, 131072);
    lemma_fx_mul_val_bound(a.y as int, b.z as int, 131072, 131072);
    lemma_fx_mul_val_bound(a.z as int, b.x as int, 131072, 131072);
    lemma_fx_mul_val_bound(a.z as int, b.y as int, 131072, 131072);
    assert(131072int * 131072int / 65536int + 1 == 262145);
}

/// Bounds for the three scaled terms combined by `ONB::local`.
proof fn lemma_local_bounds(u: Vec3, v: Vec3, w: Vec3, a: Vec3)
    requires
        vec_in_range(u, ONB_LIM as int),
        vec_in_range(v, ONB_LIM as int),
        vec_in_range(w, ONB_LIM as int),
        vec_in_range(a, 2 * SCALE as int),
    ensures
        forall|c: int, d: int|
            -ONB_LIM <= c <= ONB_LIM && -(2 * SCALE as int) <= d <= 2 * SCALE as int
                ==> -(2 * ONB_LIM as int + 1) <= #[trigger] fx_mul_spec(c, d) <= 2 * ONB_LIM as int
                + 1,
{
    assert forall|c: int, d: int|
        -ONB_LIM <= c <= ONB_LIM && -(2 * SCALE as int) <= d <= 2 * SCALE as int implies -(2
        * ONB_LIM as int + 1) <= #[trigger] fx_mul_spec(c, d) <= 2 * ONB_LIM as int + 1 by {
        lemma_fx_mul_val_bound(c, d, ONB_LIM as int, 2 * SCALE as int);
        assert(ONB_LIM as int * (2 * SCALE as int) / SCALE as int + 1 == 2 * ONB_LIM as int + 1);
    };
}

/// A cosine-weighted direction about the +z axis: a uniform disk sample
/// lifted onto the hemisphere.
pub fn random_cosin_direction() -> (r: Vec3)
    ensures
        vec_in_range(r, 2 * SCALE as int),
        r.z >= 0,
{
    let d = random_in_unit_disk();
    let ls = d.length_squared();
    proof {
        crate::vec3::lemma_length_squared_bound(d, SCALE as int);
    }
    let z = fx_sqrt(SCALE - ls);
    proof {
        let zz = z as int;
        assert(zz * zz <= (SCALE as int - ls as int) * SCALE as int);
        assert(zz <= 2 * SCALE as int) by (nonlinear_arith)
            requires
                zz >= 0,
                zz * zz <= (SCALE as int) * (SCALE as int),
                SCALE == 65536,
        ;
    }
    Vec3 { x: d.x, y: d.y, z }
}

pub enum MaterialType {
    Lambertian(Texture),
    Glossy(Rgb, i128),
    Dielectric(i128),
    Isotropic(Texture),
    Emissive(Texture),
}

pub struct Material {
    pub mat_type: MaterialType,
}

/// The materials agree except possibly in hidden noise tables.
pub open spec fn same_material(a: Material, b: Material) -> bool {
    match a.mat_type {
        MaterialType::Lambertian(t) => b.mat_type matches MaterialType::Lambertian(t2)
            && same_texture(Texture { texture_type: t.texture_type }, Texture { texture_type: t2.texture_type }),
        MaterialType::Isotropic(t) => b.mat_type matches MaterialType::Isotropic(t2)
            && same_texture(Texture { texture_type: t.texture_type }, Texture { texture_type: t2.texture_type }),
        MaterialType::Emissive(t) => b.mat_type matches MaterialType::Emissive(t2) && same_texture(
            Texture { texture_type: t.texture_type },
            Texture { texture_type: t2.texture_type },
        ),
        _ => b.mat_type == a.mat_type,
    }
}

impl Clone for Material {
    fn clone(&self) -> (r: Self)
        ensures
            same_material(*self, r),
    {
        Material {
            mat_type: match &self.mat_type {
                MaterialType::Lambertian(t) => MaterialType::Lambertian(t.clone()),
                MaterialType::Glossy(c, f) => MaterialType::Glossy(*c, *f),
                MaterialType::Dielectric(ri) => MaterialType::Dielectric(*ri),
                MaterialType::Isotropic(t) => MaterialType::Isotropic(t.clone()),
                MaterialType::Emissive(t) => MaterialType::Emissive(t.clone()),
            },
        }
    }
}

/// Every texture held by the material is valid for the atlas, and scalar
/// parameters are in range.
pub open spec fn material_wf(m: Material, atlas: ImageTextureAtlas) -> bool {
    match m.mat_type {
        MaterialType::Lambertian(t) => texture_wf(t, atlas),
        MaterialType::Isotropic(t) => texture_wf(t, atlas),
        MaterialType::Emissive(t) => texture_wf(t, atlas),
        MaterialType::Glossy(c, f) => 0 <= f <= SCALE && vec_in_range(c, MLIM as int),
        MaterialType::Dielectric(ri) => SCALE <= ri <= 16 * SCALE,
    }
}

impl Material {
    pub fn lambertian(albedo: Texture) -> (r: Material)
        ensures
            r.mat_type == MaterialType::Lambertian(albedo),
    {
        Material { mat_type: MaterialType::Lambertian(albedo) }
    }

    /// A glossy (metal) material; fuzz is clamped into [0, 1].
    pub fn glossy(albedo: Rgb, fuzz: i128) -> (r: Material)
        ensures
            r.mat_type matches MaterialType::Glossy(c, f) && c == albedo && f == (if fuzz < 0 {
                0int
            } else if fuzz < SCALE {
                fuzz as int
            } else {
                SCALE as int
            }) && 0 <= f <= SCALE,
    {
        Material {
            mat_type: MaterialType::Glossy(albedo, if fuzz < 0 {
                0
            } else if fuzz < SCALE {
                fuzz
            } else {
                SCALE
            }),
        }
    }

    pub fn dielectric(refraction_index: i128) -> (r: Material)
        ensures
            r.mat_type == MaterialType::Dielectric(refraction_index),
    {
        Material { mat_type: MaterialType::Dielectric(refraction_index) }
    }

    pub fn isotropic(color: Rgb) -> (r: Material)
        ensures
            r.mat_type matches MaterialType::Isotropic(t) && t.texture_type
                == TextureType::SolidColor(color),
    {
        Material { mat_type: MaterialType::Isotropic(Texture::solid_color(color)) }
    }

    pub fn emissive(color: Rgb) -> (r: Material)
        ensures
            r.mat_type matches MaterialType::Emissive(t) && t.texture_type
                == TextureType::SolidColor(color),
    {
        Material { mat_type: MaterialType::Emissive(Texture::solid_color(color)) }
    }

    /// Schlick's reflectance approximation.
    fn reflectance(&self, cosin: i128, ref_idx: i128) -> (r: i128)
        requires
            0 <= cosin <= 2 * SCALE,
            1 <= ref_idx <= 16 * SCALE,
        ensures
            0 <= r,
    {
        let r0a = fx_div(SCALE - ref_idx, SCALE + ref_idx);
        proof {
            crate::fx::lemma_tdiv_div_bound(
                (SCALE as int - ref_idx as int) * SCALE as int,
                SCALE as int + ref_idx as int,
                SCALE as int,
            );
            assert(((SCALE as int - ref_idx as int)) * SCALE as int <= SCALE as int * (
            SCALE as int + ref_idx as int) && -(SCALE as int * (SCALE as int + ref_idx as int))
                <= ((SCALE as int - ref_idx as int)) * SCALE as int) by (nonlinear_arith)
                requires
                    1 <= ref_idx <= 16 * SCALE,
                    SCALE == 65536,
            ;
        }
        let r0 = fx_mul(r0a, r0a);
        proof {
            lemma_fx_mul_val_bound(r0a as int, r0a as int, SCALE as int, SCALE as int);
            assert(r0 >= 0) by {
                assert(r0a as int * r0a as int >= 0) by (nonlinear_arith);
                lemma_tdiv_bounds(r0a as int * r0a as int, SCALE as int);
            };
        }
        let omc = SCALE - cosin;
        let omc2 = fx_mul(omc, omc);
        proof {
            lemma_fx_mul_val_bound(omc as int, omc as int, SCALE as int, SCALE as int);
            lemma_fx_mul_val_bound(
                fx_mul_spec(omc as int, omc as int),
                fx_mul_spec(omc as int, omc as int),
                65537,
                65537,
            );
        }
        let omc4 = fx_mul(omc2, omc2);
        proof {
            lemma_fx_mul_val_bound(
                fx_mul_spec(
                    fx_mul_spec(omc as int, omc as int),
                    fx_mul_spec(omc as int, omc as int),
                ),
                omc as int,
                65539,
                65536,
            );
        }
        let omc5 = fx_mul(omc4, omc);
        proof {
            lemma_fx_mul_val_bound(SCALE as int - r0 as int, omc5 as int, 131073, 65540);
        }
        let rest = fx_mul(SCALE - r0, omc5);
        let total = r0 + rest;
        if total >= 0 {
            total
        } else {
            0
        }
    }

    /// Whether a color is a possible attenuation of this material at the
    /// given hit, for every outcome of its internal sampling.
    pub open spec fn attenuation_of(
        &self,
        rec_u: int,
        rec_v: int,
        rec_point: Point3,
        atlas: ImageTextureAtlas,
        c: Rgb,
    ) -> bool {
        match self.mat_type {
            MaterialType::Lambertian(t) => color_of(t, rec_u, rec_v, rec_point, atlas, c),
            MaterialType::Glossy(col, _f) => c == col,
            MaterialType::Dielectric(_ri) => c == (Vec3 { x: SCALE, y: SCALE, z: SCALE }),
            MaterialType::Isotropic(t) => color_of(t, rec_u, rec_v, rec_point, atlas, c),
            MaterialType::Emissive(_t) => true,
        }
    }

    /// Scatters an incoming ray at a hit.  What is promised holds for every
    /// outcome of the internal random sampling: the scattered ray starts at
    /// the hit point with the incoming time, the attenuation is the
    /// material's color at the hit, glossy success means the outgoing ray
    /// leaves on the normal's side, glossy rays are the mirror direction
    /// perturbed at most `fuzz`, dielectrics either reflect or refract and
    /// total internal reflection forces the mirror branch, the diffuse
    /// density out-parameter is the cosine of the outgoing direction over
    /// pi, and emissive materials never scatter and change nothing.
    pub fn scatter(
        &self,
        r_in: Ray,
        attenuation: &mut Rgb,
        rec: HitRecord,
        scattered: &mut Ray,
        pdf: &mut i128,
        atlas: &ImageTextureAtlas,
    ) -> (success: bool)
        requires
            atlas.wf(),
            material_wf(*self, *atlas),
            vec_in_range(rec.point, 562949953421312),
            vec_in_range(rec.normal, 589824),
            vec_in_range(r_in.direction, WMAX as int),
            -FX_LIM <= rec.u <= FX_LIM,
            -FX_LIM <= rec.v <= FX_LIM,
        ensures
            self.mat_type matches MaterialType::Emissive(_t) ==> !success && *final(attenuation)
                == *old(attenuation) && *final(scattered) == *old(scattered) && *final(pdf) == *old(
                pdf,
            ),
            !(self.mat_type matches MaterialType::Emissive(_t)) ==> final(scattered).origin
                == rec.point && final(scattered).time == r_in.time && self.attenuation_of(
                rec.u as int,
                rec.v as int,
                rec.point,
                *atlas,
                *final(attenuation),
            ),
            self.mat_type matches MaterialType::Lambertian(_t) ==> success,
            self.mat_type matches MaterialType::Dielectric(_ri) ==> success,
            self.mat_type matches MaterialType::Isotropic(_t) ==> success,
            self.mat_type matches MaterialType::Glossy(_c, _f) ==> success == (dot_spec(
                final(scattered).direction,
                rec.normal,
            ) > 0),
            self.mat_type matches MaterialType::Glossy(_c, f) ==> exists|rs: Vec3|
                {
                    &&& vec_in_range(rs, SCALE as int)
                    &&& 0 < length_squared_spec(rs) < SCALE
                    &&& final(scattered).direction.x == reflect_spec(
                        unit_or_default_spec(r_in.direction),
                        rec.normal,
                    ).0 + fx_mul_spec(rs.x as int, f as int)
                    &&& final(scattered).direction.y == reflect_spec(
                        unit_or_default_spec(r_in.direction),
                        rec.normal,
                    ).1 + fx_mul_spec(rs.y as int, f as int)
                    &&& final(scattered).direction.z == reflect_spec(
                        unit_or_default_spec(r_in.direction),
                        rec.normal,
                    ).2 + fx_mul_spec(rs.z as int, f as int)
                },
            self.mat_type matches MaterialType::Dielectric(ri) ==> {
                let ud = unit_or_default_spec(r_in.direction);
                let ratio = if rec.front_face {
                    fx_div_spec(SCALE as int, ri as int)
                } else {
                    ri as int
                };
                (final(scattered).direction.x == reflect_spec(ud, rec.normal).0
                    && final(scattered).direction.y == reflect_spec(ud, rec.normal).1
                    && final(scattered).direction.z
                    == reflect_spec(ud, rec.normal).2) || (final(scattered).direction.x
                    == refract_spec(ud, rec.normal, ratio).0 && final(scattered).direction.y
                    == refract_spec(ud, rec.normal, ratio).1 && final(scattered).direction.z
                    == refract_spec(ud, rec.normal, ratio).2)
            },
            self.mat_type matches MaterialType::Dielectric(ri) ==> ({
                let ud = unit_or_default_spec(r_in.direction);
                let ratio = if rec.front_face {
                    fx_div_spec(SCALE as int, ri as int)
                } else {
                    ri as int
                };
                let nud = Vec3 { x: (-ud.x) as i128, y: (-ud.y) as i128, z: (-ud.z) as i128 };
                let mcos = dot_spec(nud, rec.normal);
                let cos_theta = if mcos < SCALE {
                    mcos
                } else {
                    SCALE as int
                };
                let sin_theta = crate::fx::fx_sqrt_spec(
                    abs(SCALE - fx_mul_spec(cos_theta, cos_theta)) as int,
                );
                fx_mul_spec(ratio, sin_theta) > SCALE ==> (final(scattered).direction.x
                    == reflect_spec(ud, rec.normal).0 && final(scattered).direction.y
                    == reflect_spec(ud, rec.normal).1 && final(scattered).direction.z
                    == reflect_spec(ud, rec.normal).2)
            }),
            self.mat_type matches MaterialType::Lambertian(_t) ==> *final(pdf) == fx_div_spec(
                dot_spec(unit_or_default_spec(rec.normal), final(scattered).direction),
                PI_FX as int,
            ) && vec_in_range(final(scattered).direction, 2 * SCALE as int),
            self.mat_type matches MaterialType::Isotropic(_t) ==> 0 < length_squared_spec(
                final(scattered).direction,
            ) < SCALE && *final(pdf) == *old(pdf),
            (self.mat_type matches MaterialType::Glossy(_c, _f) || self.mat_type
                matches MaterialType::Dielectric(_ri)) ==> *final(pdf) == *old(pdf),
    {
        match &self.mat_type {
            MaterialType::Lambertian(albedo) => {
                let uvw = ONB::build_from_w(rec.normal);
                let dir = uvw.local(random_cosin_direction());
                let ud = unit_or_default(dir);
                scattered.reset(rec.point, ud, r_in.time);
                let color = albedo.get_color(rec.u, rec.v, rec.point, atlas);
                attenuation.set_to(color);
                proof {
                    lemma_dot_bound(uvw.w, ud, ONB_LIM as int);
                }
                let wd = uvw.w.dot(ud);
                *pdf = fx_div(wd, PI_FX);
                true
            },
            MaterialType::Glossy(color, fuzz) => {
                let ud = unit_or_default(r_in.direction);
                let reflected = reflect(ud, rec.normal);
                proof {
                    lemma_dot_bound(ud, rec.normal, RLIM as int);
                    lemma_fx_mul_val_bound(
                        rec.normal.x as int,
                        2 * SCALE as int,
                        RLIM as int,
                        2 * SCALE as int,
                    );
                    lemma_fx_mul_val_bound(
                        rec.normal.y as int,
                        2 * SCALE as int,
                        RLIM as int,
                        2 * SCALE as int,
                    );
                    lemma_fx_mul_val_bound(
                        rec.normal.z as int,
                        2 * SCALE as int,
                        RLIM as int,
                        2 * SCALE as int,
                    );
                    lemma_fx_mul_val_bound(
                        fx_mul_spec(rec.normal.x as int, 2 * SCALE as int),
                        dot_spec(ud, rec.normal),
                        1310721,
                        19660801,
                    );
                    lemma_fx_mul_val_bound(
                        fx_mul_spec(rec.normal.y as int, 2 * SCALE as int),
                        dot_spec(ud, rec.normal),
                        1310721,
                        19660801,
                    );
                    lemma_fx_mul_val_bound(
                        fx_mul_spec(rec.normal.z as int, 2 * SCALE as int),
                        dot_spec(ud, rec.normal),
                        1310721,
                        19660801,
                    );
                }
                let rs = random_in_unit_sphere();
                let fz = rs.scale(*fuzz);
                proof {
                    lemma_fx_mul_val_bound(rs.x as int, fuzz as int, SCALE as int, SCALE as int);
                    lemma_fx_mul_val_bound(rs.y as int, fuzz as int, SCALE as int, SCALE as int);
                    lemma_fx_mul_val_bound(rs.z as int, fuzz as int, SCALE as int, SCALE as int);
                }
                let dir = reflected.add(fz);
                scattered.reset(rec.point, dir, r_in.time);
                attenuation.set_to(*color);
                proof {
                    lemma_dot_bound(dir, rec.normal, LLIM as int);
                }
                let d = scattered.direction.dot(rec.normal);
                d > 0
            },
            MaterialType::Dielectric(refraction_index) => {
                attenuation.set_to(Vec3 { x: SCALE, y: SCALE, z: SCALE });
                let refraction_ratio = if rec.front_face {
                    fx_div(SCALE, *refraction_index)
                } else {
                    *refraction_index
                };
                proof {
                    assert(SCALE as int * SCALE as int <= SCALE as int * refraction_index as int)
                        by (nonlinear_arith)
                        requires
                            refraction_index >= SCALE,
                            SCALE == 65536,
                    ;
                    crate::fx::lemma_tdiv_div_bound(
                        SCALE as int * SCALE as int,
                        refraction_index as int,
                        SCALE as int,
                    );
                    lemma_tdiv_bounds(SCALE as int * SCALE as int, refraction_index as int);
                }
                let unit_dir = unit_or_default(r_in.direction);
                proof {
                    lemma_dot_bound(unit_dir, rec.normal, RLIM as int);
                }
                let nud = unit_dir.neg();
                proof {
                    lemma_dot_bound(nud, rec.normal, RLIM as int);
                }
                let mcos = nud.dot(rec.normal);
                let cos_theta = if mcos < SCALE {
                    mcos
                } else {
                    SCALE
                };
                let c2 = fx_mul(cos_theta, cos_theta);
                proof {
                    lemma_fx_mul_val_bound(
                        cos_theta as int,
                        cos_theta as int,
                        19660801,
                        19660801,
                    );
                }
                let sin2 = SCALE - c2;
                let sin_theta = fx_sqrt(fx_abs(sin2));
                proof {
                    let st = sin_theta as int;
                    assert(st * st <= (5898306137int) * 65536);
                    assert(st <= 19660911) by (nonlinear_arith)
                        requires
                            st >= 0,
                            st * st <= 5898306137int * 65536,
                    ;
                    lemma_fx_mul_val_bound(
                        refraction_ratio as int,
                        st,
                        4294967296,
                        19660911,
                    );
                }
                let rs = fx_mul(refraction_ratio, sin_theta);
                let cannot_refract = rs > SCALE;
                let cth = if cos_theta >= 0 {
                    cos_theta
                } else {
                    0
                };
                let ri_c: i128 = if *refraction_index >= 1 {
                    *refraction_index
                } else {
                    1
                };
                let refl = self.reflectance(cth, ri_c);
                let coin = random();
                let dir = if cannot_refract || refl > coin {
                    reflect(unit_dir, rec.normal)
                } else {
                    refract(unit_dir, rec.normal, refraction_ratio)
                };
                scattered.reset(rec.point, dir, r_in.time);
                true
            },
            MaterialType::Isotropic(albedo) => {
                let dir = random_in_unit_sphere();
                scattered.reset(rec.point, dir, r_in.time);
                let color = albedo.get_color(rec.u, rec.v, rec.point, atlas);
                attenuation.set_to(color);
                true
            },
            MaterialType::Emissive(_albedo) => false,
        }
    }

    /// The cosine-weighted scattering density of a diffuse surface: zero
    /// for every other material kind.
    pub fn scattering_pdf(&self, r_in: Ray, rec: HitRecord, scattered: &mut Ray) -> (r: i128)
        requires
            vec_in_range(rec.normal, 589824),
            vec_in_range(old(scattered).direction, WMAX as int),
        ensures
            *final(scattered) == *old(scattered),
            self.mat_type matches MaterialType::Lambertian(_t) ==> {
                let cosin = dot_spec(
                    rec.normal,
                    unit_or_default_spec(old(scattered).direction),
                );
                r == if cosin < 0 {
                    0int
                } else {
                    fx_div_spec(cosin, PI_FX as int)
                }
            },
            !(self.mat_type matches MaterialType::Lambertian(_t)) ==> r == 0,
    {
        match &self.mat_type {
            MaterialType::Lambertian(_albedo) => {
                let ud = unit_or_default(scattered.direction);
                proof {
                    lemma_dot_bound(rec.normal, ud, RLIM as int);
                }
                let cosin = rec.normal.dot(ud);
                if cosin < 0 {
                    0
                } else {
                    fx_div(cosin, PI_FX)
                }
            },
            _ => 0,
        }
    }

    /// The emitted radiance: the emissive texture's color, black for every
    /// other material kind.
    pub fn emitted(&self, u: i128, v: i128, point: Point3, atlas: &ImageTextureAtlas) -> (r: Rgb)
        requires
            atlas.wf(),
            material_wf(*self, *atlas),
            vec_in_range(point, 562949953421312),
            -FX_LIM <= u <= FX_LIM,
            -FX_LIM <= v <= FX_LIM,
        ensures
            self.mat_type matches MaterialType::Emissive(t) ==> color_of(
                t,
                u as int,
                v as int,
                point,
                *atlas,
                r,
            ),
            !(self.mat_type matches MaterialType::Emissive(_t)) ==> r == (Vec3 {
                x: 0i128,
                y: 0i128,
                z: 0i128,
            }),
    {
        match &self.mat_type {
            MaterialType::Emissive(albedo) => albedo.get_color(u, v, point, atlas),
            _ => Vec3::origin(),
        }
    }
}

/// A faithful material copy stays well-formed for the same atlas.
pub proof fn lemma_same_material_wf(a: Material, b: Material, atlas: ImageTextureAtlas)
    requires
        same_material(a, b),
        material_wf(a, atlas),
    ensures
        material_wf(b, atlas),
{
    match a.mat_type {
        MaterialType::Lambertian(t) => {
            lemma_same_texture_wf(t, b.mat_type->Lambertian_0, atlas);
        },
        MaterialType::Isotropic(t) => {
            lemma_same_texture_wf(t, b.mat_type->Isotropic_0, atlas);
        },
        MaterialType::Emissive(t) => {
            lemma_same_texture_wf(t, b.mat_type->Emissive_0, atlas);
        },
        _ => {},
    }
}

/// A faithful texture copy stays well-formed for the same atlas.
pub proof fn lemma_same_texture_wf(a: Texture, b: Texture, atlas: ImageTextureAtlas)
    requires
        same_texture(Texture { texture_type: a.texture_type }, Texture { texture_type: b.texture_type }),
        texture_wf(a, atlas),
    ensures
        texture_wf(b, atlas),
{
}

} // verus!
