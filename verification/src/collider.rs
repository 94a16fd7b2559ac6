//! The geometry model: primitives, instance wrappers, participating media
//! and BVH nodes, with ray intersection and bounding boxes.

use vstd::prelude::*;
use vstd::multiset::Multiset;
use crate::fx::{
    SCALE, WMAX, FX_LIM, SQ_LIM, tdiv, fx_mul_spec, fx_div_spec, fx_sqrt_spec, fx_mul, fx_div,
    fx_sqrt, fx_abs, fx_min, fx_max, sqrt_floor, lemma_fx_mul_val_bound, lemma_tdiv_bounds,
    lemma_tdiv_div_bound, lemma_mul_bound, lemma_sqrt_exists,
};
use crate::vec3::{
    Vec3, Rgb, Point3, vec_in_range, dot_spec, length_squared_spec, length_spec, unit_or_default,
    unit_or_default_spec, lemma_normalize_small, lemma_dot_bound, lemma_dot_bound2, lemma_length_squared_bound,
    LLIM,
};
use crate::ray::Ray;
use crate::aabb::{AABB, slab_spec, aabb_in_range, contains_box, lemma_slab_mono};
use crate::trig::{fx_atan2, atan2_spec, neg_ln_unit_spec, fx_neg_ln_unit};
use crate::fx::{PI_FX, TAU_FX};
use crate::material::{Material, MaterialType, HitRecord, material_wf, same_material};
use crate::texture::{Texture, TextureType, ImageTextureAtlas, texture_wf, same_texture};
use crate::utils::{random, randuint};

verus! {

/// Cap on ray origins fed to intersection (wider than the world range so
/// that instance wrappers can shift and rotate rays and stay in range).
pub const OLIM: i128 = 137438953472;

/// Cap on ray directions fed to intersection.
pub const DLIM: i128 = 1073741824;

/// Cap on the corners of stored bounding boxes.
pub const BLIM: i128 = 34359738368;

/// The epsilon below the ray start used to avoid self-intersection.
pub const T_EPS: i128 = 66;

/// A coordinate axis, for rotation instances.
#[derive(Clone, Copy, PartialEq, Eq, Structural, Debug)]
pub enum Axis {
    X,
    Y,
    Z,
}

/// The kind of a geometry value.
#[derive(Clone, Copy, PartialEq, Eq, Structural, Debug)]
pub enum GeometryType {
    Sphere,
    MovingSphere,
    XYRect,
    XZRect,
    YZRect,
    Cuboid,
    ConstantMedium,
    TranslateInstance,
    YRotationInstance,
    BVHNode,
    Triangle,
}

/// A geometry value: a primitive, an aggregate, an instance wrapper, a
/// participating medium, or a BVH node.  Children are owned by value.
#[allow(inconsistent_fields)]
pub enum Geometry {
    Sphere { center: Point3, radius: i128, material: Material },
    MovingSphere {
        center0: Point3,
        center1: Point3,
        time0: i128,
        time1: i128,
        radius: i128,
        material: Material,
    },
    XYRect { x0: i128, x1: i128, y0: i128, y1: i128, k: i128, material: Material },
    XZRect { x0: i128, x1: i128, z0: i128, z1: i128, k: i128, material: Material },
    YZRect { y0: i128, y1: i128, z0: i128, z1: i128, k: i128, material: Material },
    Cuboid { p0: Point3, p1: Point3, sides: Vec<Geometry>, material: Material },
    ConstantMedium { boundary: Box<Geometry>, neg_inv_density: i128, material: Material },
    TranslateInstance { child: Box<Geometry>, displacement: Vec3 },
    RotateInstance {
        child: Box<Geometry>,
        axis: Axis,
        sin_theta: i128,
        cos_theta: i128,
        has_box: bool,
        bbox: AABB,
    },
    BVHNode { left: Box<Geometry>, right: Box<Geometry>, bbox: Option<AABB>, axis: usize },
    Triangle { p0: Point3, p1: Point3, p2: Point3, normal: Vec3, material: Material },
}

/// Geometric data lies within the world coordinate range, recursively.
pub open spec fn geom_in_range(g: Geometry) -> bool
    decreases g,
{
    match g {
        Geometry::Sphere { center, radius, .. } => vec_in_range(center, WMAX as int) && radius
            != 0 && -WMAX <= radius <= WMAX,
        Geometry::MovingSphere { center0, center1, time0, time1, radius, .. } => vec_in_range(
            center0,
            WMAX as int,
        ) && vec_in_range(center1, WMAX as int) && radius != 0 && -WMAX <= radius <= WMAX && -WMAX <= time0
            <= WMAX && -WMAX <= time1 <= WMAX && time1 != time0,
        Geometry::XYRect { x0, x1, y0, y1, k, .. } => -WMAX <= x0 < x1 <= WMAX && -WMAX <= y0 < y1
            <= WMAX && -WMAX <= k <= WMAX,
        Geometry::XZRect { x0, x1, z0, z1, k, .. } => -WMAX <= x0 < x1 <= WMAX && -WMAX <= z0 < z1
            <= WMAX && -WMAX <= k <= WMAX,
        Geometry::YZRect { y0, y1, z0, z1, k, .. } => -WMAX <= y0 < y1 <= WMAX && -WMAX <= z0 < z1
            <= WMAX && -WMAX <= k <= WMAX,
        Geometry::Cuboid { p0, p1, sides, .. } => vec_in_range(p0, WMAX as int) && vec_in_range(
            p1,
            WMAX as int,
        ) && sides.len() == 6 && (forall|i: int|
            0 <= i < sides.len() ==> geom_in_range(#[trigger] sides[i])),
        Geometry::ConstantMedium { boundary, neg_inv_density, .. } => geom_in_range(*boundary)
            && -4294967297 < neg_inv_density < 0,
        Geometry::TranslateInstance { child, displacement } => geom_in_range(*child)
            && vec_in_range(displacement, WMAX as int),
        Geometry::RotateInstance { child, sin_theta, cos_theta, bbox, .. } => geom_in_range(*child)
            && -SCALE <= sin_theta <= SCALE && -SCALE <= cos_theta <= SCALE && vec_in_range(
            bbox.minimum,
            BLIM as int,
        ) && vec_in_range(bbox.maximum, BLIM as int),
        Geometry::BVHNode { left, right, bbox, axis } => geom_in_range(*left) && geom_in_range(
            *right,
        ) && axis < 3 && (bbox matches Some(b) ==> vec_in_range(b.minimum, BLIM as int)
            && vec_in_range(b.maximum, BLIM as int)),
        Geometry::Triangle { p0, p1, p2, normal, .. } => vec_in_range(p0, WMAX as int)
            && vec_in_range(p1, WMAX as int) && vec_in_range(p2, WMAX as int) && vec_in_range(
            normal,
            2 * SCALE as int,
        ),
    }
}

/// Every material in the tree is valid for the atlas.
pub open spec fn geom_mats_wf(g: Geometry, atlas: ImageTextureAtlas) -> bool
    decreases g,
{
    match g {
        Geometry::Sphere { material, .. } => material_wf(material, atlas),
        Geometry::MovingSphere { material, .. } => material_wf(material, atlas),
        Geometry::XYRect { material, .. } => material_wf(material, atlas),
        Geometry::XZRect { material, .. } => material_wf(material, atlas),
        Geometry::YZRect { material, .. } => material_wf(material, atlas),
        Geometry::Cuboid { material, sides, .. } => material_wf(material, atlas) && (forall|i: int|
            0 <= i < sides.len() ==> geom_mats_wf(#[trigger] sides[i], atlas)),
        Geometry::ConstantMedium { boundary, material, .. } => material_wf(material, atlas)
            && geom_mats_wf(*boundary, atlas),
        Geometry::TranslateInstance { child, .. } => geom_mats_wf(*child, atlas),
        Geometry::RotateInstance { child, .. } => geom_mats_wf(*child, atlas),
        Geometry::BVHNode { left, right, .. } => geom_mats_wf(*left, atlas) && geom_mats_wf(
            *right,
            atlas,
        ),
        Geometry::Triangle { material, .. } => material_wf(material, atlas),
    }
}

/// The rays accepted by `intersect`.
pub open spec fn ray_in_range(r: Ray) -> bool {
    &&& vec_in_range(r.origin, OLIM as int)
    &&& vec_in_range(r.direction, DLIM as int)
    &&& -WMAX <= r.time <= WMAX
}

/// The spec-level image of a hit: every field of the eventual hit record,
/// and the material of the leaf that was hit.
pub ghost struct HitInfo {
    pub point: Point3,
    pub normal: Vec3,
    pub mat: Material,
    pub t: i128,
    pub u: i128,
    pub v: i128,
    pub front_face: bool,
}

/// The sphere surface coordinates of an outward unit normal.
pub open spec fn sphere_uv_spec(n: Vec3) -> (int, int) {
    let theta = atan2_spec(
        fx_sqrt_spec(
            if SCALE - fx_mul_spec(n.y as int, n.y as int) >= 0 {
                SCALE - fx_mul_spec(n.y as int, n.y as int)
            } else {
                -(SCALE - fx_mul_spec(n.y as int, n.y as int))
            },
        ),
        -n.y as int,
    );
    let phi = atan2_spec(-n.z as int, n.x as int) + PI_FX;
    (fx_div_spec(phi, TAU_FX as int), fx_div_spec(theta, PI_FX as int))
}

/// The face-orientation convention: the stored normal opposes the ray.
pub open spec fn oriented(dir: Vec3, out_normal: Vec3) -> (bool, Vec3) {
    let ff = dot_spec(dir, out_normal) < 0;
    (
        ff,
        if ff {
            out_normal
        } else {
            Vec3 { x: (-out_normal.x) as i128, y: (-out_normal.y) as i128, z: (-out_normal.z) as i128 }
        },
    )
}

/// The point at parameter t along a ray, in fixed point.
pub open spec fn ray_at_spec(r: Ray, t: int) -> Point3 {
    Vec3 {
        x: (r.origin.x + fx_mul_spec(r.direction.x as int, t)) as i128,
        y: (r.origin.y + fx_mul_spec(r.direction.y as int, t)) as i128,
        z: (r.origin.z + fx_mul_spec(r.direction.z as int, t)) as i128,
    }
}

/// The outward normal of a sphere at a surface point: the offset from the
/// center normalized, flipped for a negative (inward-facing) radius.
pub open spec fn sphere_normal_spec(point: Point3, center: Point3, radius: int) -> Vec3 {
    let d = Vec3 {
        x: (point.x - center.x) as i128,
        y: (point.y - center.y) as i128,
        z: (point.z - center.z) as i128,
    };
    let n = unit_or_default_spec(d);
    if radius < 0 {
        Vec3 { x: (-n.x) as i128, y: (-n.y) as i128, z: (-n.z) as i128 }
    } else {
        n
    }
}

/// The root selection of the sphere quadratic: the nearer root if it lies
/// in [tmin, tmax], else the farther root if it does, else no hit.
pub open spec fn sphere_root_spec(center: Point3, radius: int, r: Ray, tmin: int, tmax: int) -> Option<
    int,
> {
    let oc = Vec3 {
        x: (r.origin.x - center.x) as i128,
        y: (r.origin.y - center.y) as i128,
        z: (r.origin.z - center.z) as i128,
    };
    let a = length_squared_spec(r.direction);
    if a == 0 {
        None
    } else {
        let half_b = dot_spec(oc, r.direction);
        let c = length_squared_spec(oc) - fx_mul_spec(radius, radius);
        let disc = fx_mul_spec(half_b, half_b) - fx_mul_spec(a, c);
        if disc < 0 {
            None
        } else {
            let sqrtd = fx_sqrt_spec(disc);
            let root1 = fx_div_spec(-half_b - sqrtd, a);
            if tmin <= root1 <= tmax {
                Some(root1)
            } else {
                let root2 = fx_div_spec(-half_b + sqrtd, a);
                if tmin <= root2 <= tmax {
                    Some(root2)
                } else {
                    None
                }
            }
        }
    }
}

/// The full sphere hit at a chosen center (shared with moving spheres).
pub open spec fn sphere_hit_spec(
    center: Point3,
    radius: int,
    material: Material,
    r: Ray,
    tmin: int,
    tmax: int,
) -> Option<HitInfo> {
    match sphere_root_spec(center, radius, r, tmin, tmax) {
        None => None,
        Some(root) => {
            let point = ray_at_spec(r, root);
            let n = sphere_normal_spec(point, center, radius);
            let of = oriented(r.direction, n);
            let uv = sphere_uv_spec(n);
            Some(
                HitInfo {
                    point,
                    normal: of.1,
                    mat: material,
                    t: root as i128,
                    u: uv.0 as i128,
                    v: uv.1 as i128,
                    front_face: of.0,
                },
            )
        },
    }
}

/// The interpolated center of a moving sphere at a ray time, with the
/// interpolation parameter clamped near the shutter interval so that the
/// center stays within coordinate range.
pub open spec fn moving_center_spec(c0: Point3, c1: Point3, t0: int, t1: int, time: int) -> Point3 {
    let raw = fx_div_spec(time - t0, t1 - t0);
    let s = if raw < -SCALE {
        -(SCALE as int)
    } else if raw > 2 * SCALE {
        2 * SCALE as int
    } else {
        raw
    };
    Vec3 {
        x: (c0.x + fx_mul_spec(c1.x - c0.x, s)) as i128,
        y: (c0.y + fx_mul_spec(c1.y - c0.y, s)) as i128,
        z: (c0.z + fx_mul_spec(c1.z - c0.z, s)) as i128,
    }
}

/// One axis-aligned rectangle hit (shared by the three orientations through
/// the axis permutation chosen by the caller).
pub open spec fn rect_hit_spec(
    a0: int,
    a1: int,
    b0: int,
    b1: int,
    k: int,
    o_axis: int,
    d_axis: int,
    o_a: int,
    d_a: int,
    o_b: int,
    d_b: int,
    tmin: int,
    tmax: int,
) -> Option<(int, int, int)> {
    if d_axis == 0 {
        None
    } else {
        let t = fx_div_spec(k - o_axis, d_axis);
        if t < tmin || t > tmax {
            None
        } else {
            let a = o_a + fx_mul_spec(d_a, t);
            let b = o_b + fx_mul_spec(d_b, t);
            if a < a0 || a > a1 || b < b0 || b > b1 {
                None
            } else {
                Some((t, fx_div_spec(a - a0, a1 - a0), fx_div_spec(b - b0, b1 - b0)))
            }
        }
    }
}

/// A rectangle hit assembled into a `HitInfo` with the given outward
/// normal axis.
pub open spec fn rect_info(
    r: Ray,
    t: int,
    u: int,
    v: int,
    out_normal: Vec3,
    material: Material,
) -> HitInfo {
    let of = oriented(r.direction, out_normal);
    HitInfo {
        point: ray_at_spec(r, t),
        normal: of.1,
        mat: material,
        t: t as i128,
        u: u as i128,
        v: v as i128,
        front_face: of.0,
    }
}

/// The direction component along a BVH split axis (an axis index beyond
/// the third falls back to the x component).
pub open spec fn axis_component(v: Vec3, axis: int) -> int {
    if axis == 1 {
        v.y as int
    } else if axis == 2 {
        v.z as int
    } else {
        v.x as int
    }
}

/// The ray a translation instance hands to its child, or `None` when the
/// shifted origin leaves the supported coordinate range.
pub open spec fn translated_ray(r: Ray, displacement: Vec3) -> Option<Ray> {
    let o = Vec3 {
        x: (r.origin.x - displacement.x) as i128,
        y: (r.origin.y - displacement.y) as i128,
        z: (r.origin.z - displacement.z) as i128,
    };
    if -OLIM <= o.x <= OLIM && -OLIM <= o.y <= OLIM && -OLIM <= o.z <= OLIM {
        Some(Ray { origin: o, direction: r.direction, time: r.time })
    } else {
        None
    }
}

/// The deterministic mirror of `intersect`, defined for the variants whose
/// behavior involves no random sampling and no rotation; for the others it
/// is unconstrained (their `intersect` promises weaker properties).
pub open spec fn hit_spec(g: Geometry, r: Ray, tmin: int, tmax: int) -> Option<HitInfo>
    decreases g, 1int, 0int,
{
    match g {
        Geometry::Sphere { center, radius, material } => sphere_hit_spec(
            center,
            radius as int,
            material,
            r,
            tmin,
            tmax,
        ),
        Geometry::MovingSphere { center0, center1, time0, time1, radius, material } => sphere_hit_spec(
            moving_center_spec(center0, center1, time0 as int, time1 as int, r.time as int),
            radius as int,
            material,
            r,
            tmin,
            tmax,
        ),
        Geometry::XYRect { x0, x1, y0, y1, k, material } => match rect_hit_spec(
            x0 as int,
            x1 as int,
            y0 as int,
            y1 as int,
            k as int,
            r.origin.z as int,
            r.direction.z as int,
            r.origin.x as int,
            r.direction.x as int,
            r.origin.y as int,
            r.direction.y as int,
            tmin,
            tmax,
        ) {
            None => None,
            Some((t, u, v)) => Some(
                rect_info(r, t, u, v, Vec3 { x: 0, y: 0, z: SCALE }, material),
            ),
        },
        Geometry::XZRect { x0, x1, z0, z1, k, material } => match rect_hit_spec(
            x0 as int,
            x1 as int,
            z0 as int,
            z1 as int,
            k as int,
            r.origin.y as int,
            r.direction.y as int,
            r.origin.x as int,
            r.direction.x as int,
            r.origin.z as int,
            r.direction.z as int,
            tmin,
            tmax,
        ) {
            None => None,
            Some((t, u, v)) => Some(
                rect_info(r, t, u, v, Vec3 { x: 0, y: SCALE, z: 0 }, material),
            ),
        },
        Geometry::YZRect { y0, y1, z0, z1, k, material } => match rect_hit_spec(
            y0 as int,
            y1 as int,
            z0 as int,
            z1 as int,
            k as int,
            r.origin.x as int,
            r.direction.x as int,
            r.origin.y as int,
            r.direction.y as int,
            r.origin.z as int,
            r.direction.z as int,
            tmin,
            tmax,
        ) {
            None => None,
            Some((t, u, v)) => Some(
                rect_info(r, t, u, v, Vec3 { x: SCALE, y: 0, z: 0 }, material),
            ),
        },
        Geometry::Cuboid { sides, .. } => scan_seq_spec(sides@, r, tmin, tmax),
        Geometry::ConstantMedium { .. } => None,
        Geometry::TranslateInstance { child, displacement } => match translated_ray(
            r,
            displacement,
        ) {
            None => None,
            Some(moved) => match hit_spec(*child, moved, tmin, tmax) {
                None => None,
                Some(h) => {
                    let p = Vec3 {
                        x: (h.point.x + displacement.x) as i128,
                        y: (h.point.y + displacement.y) as i128,
                        z: (h.point.z + displacement.z) as i128,
                    };
                    if !(-PLIM <= p.x <= PLIM && -PLIM <= p.y <= PLIM && -PLIM <= p.z <= PLIM) {
                        None
                    } else {
                        let of = oriented(moved.direction, h.normal);
                        Some(HitInfo { point: p, normal: of.1, front_face: of.0, ..h })
                    }
                },
            },
        },
        Geometry::RotateInstance { child, axis, sin_theta, cos_theta, .. } => rotate_hit_spec(
            *child,
            axis,
            sin_theta,
            cos_theta,
            r,
            tmin,
            tmax,
        ),
        Geometry::BVHNode { left, right, bbox, axis } => {
            let boxed = match bbox {
                Some(b) => slab_spec(b, r, tmin, tmax),
                None => true,
            };
            if !boxed {
                None
            } else {
                if axis_component(r.direction, axis as int) >= 0 {
                    match hit_spec(*left, r, tmin, tmax) {
                        Some(lh) => match hit_spec(*right, r, tmin, lh.t as int) {
                            Some(rh) => Some(rh),
                            None => Some(lh),
                        },
                        None => hit_spec(*right, r, tmin, tmax),
                    }
                } else {
                    match hit_spec(*right, r, tmin, tmax) {
                        Some(rh) => match hit_spec(*left, r, tmin, rh.t as int) {
                            Some(lh) => Some(lh),
                            None => Some(rh),
                        },
                        None => hit_spec(*left, r, tmin, tmax),
                    }
                }
            }
        },
        Geometry::Triangle { p0, p1, p2, normal, material } => triangle_hit_spec(
            p0,
            p1,
            p2,
            normal,
            material,
            r,
            tmin,
            tmax,
        ),
    }
}

/// `scan_spec` lifted over a sequence, kept separate so the mutual
/// recursion with `hit_spec` has a measure.
pub open spec fn scan_seq_spec(objs: Seq<Geometry>, r: Ray, tmin: int, tmax: int) -> Option<
    HitInfo,
>
    decreases objs, 0int, objs.len(),
{
    if objs.len() == 0 {
        None
    } else {
        match hit_spec(objs[0], r, tmin, tmax) {
            None => scan_seq_spec(objs.drop_first(), r, tmin, tmax),
            Some(h) => match scan_seq_spec(objs.drop_first(), r, tmin, h.t as int) {
                Some(h2) => Some(h2),
                None => Some(h),
            },
        }
    }
}

/// One edge-orientation test of the triangle intersection, at spec level:
/// the hit lies on the inner side of the edge from `a` to `b` as seen
/// along the plane normal.
pub open spec fn edge_ok_spec(a: Point3, b: Point3, hit: Point3, normal: Vec3) -> bool {
    let edge = Vec3 { x: (b.x - a.x) as i128, y: (b.y - a.y) as i128, z: (b.z - a.z) as i128 };
    let vp = Vec3 {
        x: (hit.x - a.x) as i128,
        y: (hit.y - a.y) as i128,
        z: (hit.z - a.z) as i128,
    };
    let perp = Vec3 {
        x: crate::vec3::cross_x(edge, vp) as i128,
        y: crate::vec3::cross_y(edge, vp) as i128,
        z: crate::vec3::cross_z(edge, vp) as i128,
    };
    dot_spec(normal, perp) >= 0
}

/// The triangle hit: the plane crossing, the distance checks, then the
/// three edge-orientation tests.
pub open spec fn triangle_hit_spec(
    p0: Point3,
    p1: Point3,
    p2: Point3,
    normal: Vec3,
    material: Material,
    r: Ray,
    tmin: int,
    tmax: int,
) -> Option<HitInfo> {
    let ndd = dot_spec(normal, r.direction);
    if ndd == 0 {
        None
    } else {
        let d = -dot_spec(normal, p0);
        let ndo = dot_spec(normal, r.origin);
        let dist = fx_div_spec(-(ndo + d), ndd);
        if dist < 0 || dist < tmin || dist > tmax {
            None
        } else {
            let hit = ray_at_spec(r, dist);
            if !edge_ok_spec(p0, p1, hit, normal) || !edge_ok_spec(p1, p2, hit, normal)
                || !edge_ok_spec(p2, p0, hit, normal) {
                None
            } else {
                let of = oriented(r.direction, normal);
                Some(
                    HitInfo {
                        point: hit,
                        normal: of.1,
                        mat: material,
                        t: dist as i128,
                        u: 0,
                        v: 0,
                        front_face: of.0,
                    },
                )
            }
        }
    }
}

/// The two components a rotation about the given axis mixes, at spec level.
pub open spec fn rot_pair_spec(axis: Axis, v: Vec3) -> (i128, i128) {
    match axis {
        Axis::Y => (v.x, v.z),
        Axis::X => (v.y, v.z),
        Axis::Z => (v.x, v.y),
    }
}

/// The vector with the mixed components replaced, at spec level.
pub open spec fn rot_unpair_spec(axis: Axis, v: Vec3, a: i128, b: i128) -> Vec3 {
    match axis {
        Axis::Y => Vec3 { x: a, y: v.y, z: b },
        Axis::X => Vec3 { x: v.x, y: a, z: b },
        Axis::Z => Vec3 { x: a, y: b, z: v.z },
    }
}

/// The ray a rotation instance hands to its child, or `None` when the
/// rotated coordinates leave the supported range.
pub open spec fn rotate_ray_spec(r: Ray, axis: Axis, sin_theta: i128, cos_theta: i128) -> Option<
    Ray,
> {
    let op = rot_pair_spec(axis, r.origin);
    let no1 = (fx_mul_spec(cos_theta as int, op.0 as int) - fx_mul_spec(
        sin_theta as int,
        op.1 as int,
    )) as i128;
    let no2 = (fx_mul_spec(sin_theta as int, op.0 as int) + fx_mul_spec(
        cos_theta as int,
        op.1 as int,
    )) as i128;
    let dp = rot_pair_spec(axis, r.direction);
    let nd1 = (fx_mul_spec(cos_theta as int, dp.0 as int) - fx_mul_spec(
        sin_theta as int,
        dp.1 as int,
    )) as i128;
    let nd2 = (fx_mul_spec(sin_theta as int, dp.0 as int) + fx_mul_spec(
        cos_theta as int,
        dp.1 as int,
    )) as i128;
    if no1 < -OLIM || no1 > OLIM || no2 < -OLIM || no2 > OLIM || nd1 < -DLIM || nd1 > DLIM || nd2
        < -DLIM || nd2 > DLIM {
        None
    } else {
        Some(
            Ray {
                origin: rot_unpair_spec(axis, r.origin, no1, no2),
                direction: rot_unpair_spec(axis, r.direction, nd1, nd2),
                time: r.time,
            },
        )
    }
}

/// A point or normal rotated back into the world frame, at spec level.
pub open spec fn rotate_back_spec(v: Vec3, axis: Axis, sin_theta: i128, cos_theta: i128) -> Vec3 {
    let p = rot_pair_spec(axis, v);
    let na = (fx_mul_spec(cos_theta as int, p.0 as int) + fx_mul_spec(
        sin_theta as int,
        p.1 as int,
    )) as i128;
    let nb = (-fx_mul_spec(sin_theta as int, p.0 as int) + fx_mul_spec(
        cos_theta as int,
        p.1 as int,
    )) as i128;
    rot_unpair_spec(axis, v, na, nb)
}

/// The rotation-instance hit: rotate the ray into the object frame,
/// delegate, rotate the hit back, with range guards and a renormalized
/// normal where repeated instancing would blow it up.
pub open spec fn rotate_hit_spec(
    child: Geometry,
    axis: Axis,
    sin_theta: i128,
    cos_theta: i128,
    r: Ray,
    tmin: int,
    tmax: int,
) -> Option<HitInfo>
    decreases child, 2int, 0int,
{
    match rotate_ray_spec(r, axis, sin_theta, cos_theta) {
        None => None,
        Some(rr) => match hit_spec(child, rr, tmin, tmax) {
            None => None,
            Some(h) => {
                let p = rotate_back_spec(h.point, axis, sin_theta, cos_theta);
                let n0 = rotate_back_spec(h.normal, axis, sin_theta, cos_theta);
                if p.x < -PLIM || p.x > PLIM || p.y < -PLIM || p.y > PLIM || p.z < -PLIM || p.z
                    > PLIM {
                    None
                } else {
                    let n = if n0.x < -589824 || n0.x > 589824 || n0.y < -589824 || n0.y > 589824
                        || n0.z < -589824 || n0.z > 589824 {
                        unit_or_default_spec(n0)
                    } else {
                        n0
                    };
                    let of = oriented(rr.direction, n);
                    Some(HitInfo { point: p, normal: of.1, front_face: of.0, ..h })
                }
            },
        },
    }
}

/// The variants whose `intersect` is pinned exactly by `hit_spec`.
pub open spec fn mirrored(g: Geometry) -> bool
    decreases g,
{
    match g {
        Geometry::Sphere { .. } => true,
        Geometry::MovingSphere { .. } => true,
        Geometry::XYRect { .. } => true,
        Geometry::XZRect { .. } => true,
        Geometry::YZRect { .. } => true,
        Geometry::Cuboid { sides, .. } => forall|i: int|
            0 <= i < sides.len() ==> mirrored(#[trigger] sides[i]),
        Geometry::ConstantMedium { .. } => false,
        Geometry::TranslateInstance { child, .. } => mirrored(*child),
        Geometry::RotateInstance { child, .. } => mirrored(*child),
        Geometry::BVHNode { left, right, .. } => mirrored(*left) && mirrored(*right),
        Geometry::Triangle { .. } => true,
    }
}

/// An exec hit record agrees with a spec-level hit image: same fields, and
/// a faithful clone of the hit material.
pub open spec fn hit_matches(res: Option<HitRecord>, spec_res: Option<HitInfo>) -> bool {
    match spec_res {
        None => res is None,
        Some(info) => match res {
            None => false,
            Some(rec) => rec.point == info.point && rec.normal == info.normal && rec.t == info.t
                && rec.u == info.u && rec.v == info.v && rec.front_face == info.front_face
                && same_material(info.mat, rec.material),
        },
    }
}

/// What every successful intersection guarantees, mirrored or not: ranges
/// that make the record safe to scatter from.
pub open spec fn hit_in_range(rec: HitRecord, tmin: int, tmax: int) -> bool {
    &&& vec_in_range(rec.point, PLIM as int)
    &&& vec_in_range(rec.normal, 9 * SCALE as int)
    &&& tmin <= rec.t <= tmax
    &&& -FX_LIM <= rec.u <= FX_LIM
    &&& -FX_LIM <= rec.v <= FX_LIM
}

/// Cap on hit point coordinates.
pub const PLIM: i128 = 562949953421312;

/// The shared sphere intersection: solves the quadratic, picks the nearer
/// root in range (else the farther), and assembles the oriented record.
/// A zero-length direction cannot hit (the quadratic degenerates).
#[verifier::rlimit(100)]
#[verifier::spinoff_prover]
fn sphere_intersect(
    center: Point3,
    radius: i128,
    material: &Material,
    r: Ray,
    t_min: i128,
    t_max: i128,
) -> (res: Option<HitRecord>)
    requires
        vec_in_range(center, 171798691840),
        radius != 0,
        -WMAX <= radius <= WMAX,
        ray_in_range(r),
        -WMAX <= t_min <= WMAX,
        -WMAX <= t_max <= WMAX,
    ensures
        hit_matches(
            res,
            sphere_hit_spec(center, radius as int, *material, r, t_min as int, t_max as int),
        ),
        res matches Some(rec) ==> hit_in_range(rec, t_min as int, t_max as int),
{
    let oc = r.origin.sub(center);
    proof {
        assert(-137438953472 <= r.origin.x <= 137438953472);
        assert(-171798691840 <= center.x <= 171798691840);
        assert(vec_in_range(oc, 309237645312));
        lemma_length_squared_bound(r.direction, 1073741824);
        lemma_length_squared_bound(oc, 309237645312);
        lemma_dot_bound2(oc, r.direction, 309237645312, 1073741824);
        lemma_fx_mul_val_bound(radius as int, radius as int, 17179869184, 17179869184);
        assert(3int * 1073741824int * 1073741824int / 65536int + 1 == 52776558133249);
        assert(3int * 309237645312int * 309237645312int / 65536int + 1 == 4377498837804122113);
        assert(3int * 309237645312int * 1073741824int / 65536int + 1 == 15199648742375425);
        assert(17179869184int * 17179869184int / 65536int + 1 == 4503599627370497);
    }
    let a = r.direction.length_squared();
    if a == 0 {
        return None;
    }
    let half_b = oc.dot(r.direction);
    let c = oc.length_squared() - fx_mul(radius, radius);
    proof {
        lemma_fx_mul_val_bound(half_b as int, half_b as int, 15199648742375425, 15199648742375425);
        lemma_fx_mul_val_bound(a as int, c as int, 52776558133249, 4382002437431492610);
        assert(15199648742375425int * 15199648742375425int / 65536int + 1
            == 3525227689996259137299677185);
        assert(52776558133249int * 4382002437431492610int / 65536int + 1
            == 3528854467455169426628804609);
    }
    let disc = fx_mul(half_b, half_b) - fx_mul(a, c);
    if disc < 0 {
        return None;
    }
    let sqrtd = fx_sqrt(disc);
    proof {
        let sd = sqrtd as int;
        assert(sd * sd <= disc * SCALE);
        assert(sd * sd <= 462684160000000000000000000000000) by (nonlinear_arith)
            requires
                sd * sd <= disc as int * SCALE as int,
                0 <= disc <= 7060000000000000000000000000,
                SCALE == 65536,
        ;
        assert(sd <= 22000000000000000) by (nonlinear_arith)
            requires
                sd >= 0,
                sd * sd <= 462684160000000000000000000000000,
        ;
    }
    let mut root = fx_div(-half_b - sqrtd, a);
    if root < t_min || t_max < root {
        root = fx_div(-half_b + sqrtd, a);
        if root < t_min || t_max < root {
            return None;
        }
    }
    proof {
        lemma_fx_mul_val_bound(r.direction.x as int, root as int, DLIM as int, WMAX as int);
        lemma_fx_mul_val_bound(r.direction.y as int, root as int, DLIM as int, WMAX as int);
        lemma_fx_mul_val_bound(r.direction.z as int, root as int, DLIM as int, WMAX as int);
    }
    let point = r.at(root);
    let mut rec = HitRecord::new(point, root);
    let offset = point.sub(center);
    let un = unit_or_default(offset);
    let out_normal = if radius < 0 {
        un.neg()
    } else {
        un
    };
    rec.set_face_normal(r, out_normal);
    rec.material = material.clone();
    let uv = sphere_get_uv(out_normal);
    rec.set_uv(uv);
    Some(rec)
}

/// The spherical surface coordinates of an outward unit normal, from the
/// polar and azimuthal angles.
fn sphere_get_uv(n: Vec3) -> (uv: (i128, i128))
    requires
        vec_in_range(n, 4 * SCALE as int),
    ensures
        uv.0 == sphere_uv_spec(n).0,
        uv.1 == sphere_uv_spec(n).1,
        -FX_LIM <= uv.0 <= FX_LIM,
        -FX_LIM <= uv.1 <= FX_LIM,
{
    proof {
        lemma_fx_mul_val_bound(n.y as int, n.y as int, 262144, 262144);
        assert(262144int * 262144int / 65536int + 1 == 1048577);
    }
    let yy = fx_mul(n.y, n.y);
    proof {
        let arg = if SCALE as int - fx_mul_spec(n.y as int, n.y as int) >= 0 {
            SCALE as int - fx_mul_spec(n.y as int, n.y as int)
        } else {
            -(SCALE as int - fx_mul_spec(n.y as int, n.y as int))
        };
        let st = fx_sqrt_spec(arg);
        assert(0 <= arg <= 1114113);
        lemma_sqrt_exists(arg * SCALE as int);
        assert(st >= 0 && st * st <= arg * SCALE as int);
        assert(arg * SCALE as int <= 73014509568) by (nonlinear_arith)
            requires
                0 <= arg <= 1114113,
                SCALE == 65536,
        ;
        assert(st <= 271000) by (nonlinear_arith)
            requires
                st >= 0,
                st * st <= 73014509568,
        ;
    }
    let sq = fx_sqrt(fx_abs(SCALE - yy));
    let theta = fx_atan2(sq, -n.y);
    let phi = fx_atan2(-n.z, n.x) + PI_FX;
    let u = fx_div(phi, TAU_FX);
    let v = fx_div(theta, PI_FX);
    (u, v)
}

/// A rectangle intersection over one axis permutation: the plane crossing
/// parameter, then the in-plane extent checks.  A direction parallel to
/// the plane misses.
fn rect_intersect(
    a0: i128,
    a1: i128,
    b0: i128,
    b1: i128,
    k: i128,
    o_axis: i128,
    d_axis: i128,
    o_a: i128,
    d_a: i128,
    o_b: i128,
    d_b: i128,
    t_min: i128,
    t_max: i128,
) -> (res: Option<(i128, i128, i128)>)
    requires
        -WMAX <= a0 < a1 <= WMAX,
        -WMAX <= b0 < b1 <= WMAX,
        -WMAX <= k <= WMAX,
        -OLIM <= o_axis <= OLIM,
        -OLIM <= o_a <= OLIM,
        -OLIM <= o_b <= OLIM,
        -DLIM <= d_axis <= DLIM,
        -DLIM <= d_a <= DLIM,
        -DLIM <= d_b <= DLIM,
        -WMAX <= t_min <= WMAX,
        -WMAX <= t_max <= WMAX,
    ensures
        ({
            let spec = rect_hit_spec(
                a0 as int,
                a1 as int,
                b0 as int,
                b1 as int,
                k as int,
                o_axis as int,
                d_axis as int,
                o_a as int,
                d_a as int,
                o_b as int,
                d_b as int,
                t_min as int,
                t_max as int,
            );
            match res {
                None => spec is None,
                Some((t, u, v)) => spec == Some((t as int, u as int, v as int)) && t_min <= t
                    <= t_max && -FX_LIM <= u <= FX_LIM && -FX_LIM <= v <= FX_LIM,
            }
        }),
{
    if d_axis == 0 {
        return None;
    }
    proof {
        lemma_mul_bound(k as int - o_axis as int, SCALE as int, OLIM as int + WMAX as int, SCALE as int);
    }
    let t = fx_div(k - o_axis, d_axis);
    if t < t_min || t > t_max {
        return None;
    }
    proof {
        lemma_fx_mul_val_bound(d_a as int, t as int, DLIM as int, WMAX as int);
        lemma_fx_mul_val_bound(d_b as int, t as int, DLIM as int, WMAX as int);
    }
    let a = o_a + fx_mul(d_a, t);
    let b = o_b + fx_mul(d_b, t);
    if a < a0 || a > a1 || b < b0 || b > b1 {
        return None;
    }
    proof {
        lemma_mul_bound(a as int - a0 as int, SCALE as int, 2 * WMAX as int, SCALE as int);
        lemma_mul_bound(b as int - b0 as int, SCALE as int, 2 * WMAX as int, SCALE as int);
        lemma_tdiv_div_bound((a - a0) * SCALE as int, a1 as int - a0 as int, 2 * WMAX as int * SCALE as int);
        lemma_tdiv_div_bound((b - b0) * SCALE as int, b1 as int - b0 as int, 2 * WMAX as int * SCALE as int);
        assert((a - a0) * SCALE as int <= (2 * WMAX as int * SCALE as int) * (a1 as int - a0 as int)
            && -((2 * WMAX as int * SCALE as int) * (a1 as int - a0 as int)) <= (a - a0)
            * SCALE as int) by (nonlinear_arith)
            requires
                0 <= a as int - a0 as int <= 2 * WMAX as int,
                a1 as int - a0 as int >= 1,
                SCALE == 65536,
                WMAX == 17179869184,
        ;
        assert((b - b0) * SCALE as int <= (2 * WMAX as int * SCALE as int) * (b1 as int - b0 as int)
            && -((2 * WMAX as int * SCALE as int) * (b1 as int - b0 as int)) <= (b - b0)
            * SCALE as int) by (nonlinear_arith)
            requires
                0 <= b as int - b0 as int <= 2 * WMAX as int,
                b1 as int - b0 as int >= 1,
                SCALE == 65536,
                WMAX == 17179869184,
        ;
    }
    let u = fx_div(a - a0, a1 - a0);
    let v = fx_div(b - b0, b1 - b0);
    Some((t, u, v))
}

/// The material is one of those held by the geometry tree.
pub open spec fn mat_in(m: Material, g: Geometry) -> bool
    decreases g,
{
    match g {
        Geometry::Sphere { material, .. } => m == material,
        Geometry::MovingSphere { material, .. } => m == material,
        Geometry::XYRect { material, .. } => m == material,
        Geometry::XZRect { material, .. } => m == material,
        Geometry::YZRect { material, .. } => m == material,
        Geometry::Cuboid { material, sides, .. } => m == material || exists|i: int|
            0 <= i < sides.len() && mat_in(m, #[trigger] sides[i]),
        Geometry::ConstantMedium { boundary, material, .. } => m == material || mat_in(
            m,
            *boundary,
        ),
        Geometry::TranslateInstance { child, .. } => mat_in(m, *child),
        Geometry::RotateInstance { child, .. } => mat_in(m, *child),
        Geometry::BVHNode { left, right, .. } => mat_in(m, *left) || mat_in(m, *right),
        Geometry::Triangle { material, .. } => m == material,
    }
}

/// Every material of a well-formed tree is well-formed for the atlas.
pub proof fn lemma_mat_in_wf(m: Material, g: Geometry, atlas: ImageTextureAtlas)
    requires
        geom_mats_wf(g, atlas),
        mat_in(m, g),
    ensures
        material_wf(m, atlas),
    decreases g,
{
    match g {
        Geometry::Cuboid { material, sides, .. } => {
            if m != material {
                let i = choose|i: int| 0 <= i < sides.len() && mat_in(m, #[trigger] sides[i]);
                lemma_mat_in_wf(m, sides[i], atlas);
            }
        },
        Geometry::ConstantMedium { boundary, material, .. } => {
            if m != material {
                lemma_mat_in_wf(m, *boundary, atlas);
            }
        },
        Geometry::TranslateInstance { child, .. } => {
            lemma_mat_in_wf(m, *child, atlas);
        },
        Geometry::RotateInstance { child, .. } => {
            lemma_mat_in_wf(m, *child, atlas);
        },
        Geometry::BVHNode { left, right, .. } => {
            if mat_in(m, *left) {
                lemma_mat_in_wf(m, *left, atlas);
            } else {
                lemma_mat_in_wf(m, *right, atlas);
            }
        },
        _ => {},
    }
}

/// The participating-medium free-flight decision: the boundary passage
/// [t1, t2] clamped to the query range, against a sampled flight distance
/// -ln((u + 1) / SCALE) scaled by the inverse density and the ray speed.
/// No hit whenever the sampled distance exceeds the distance available
/// inside the volume.
pub open spec fn medium_time_spec(
    t1: int,
    t2: int,
    tmin: int,
    tmax: int,
    len: int,
    neg_inv_density: int,
    u: int,
) -> Option<int> {
    let c1 = if t1 < tmin {
        tmin
    } else {
        t1
    };
    let c2 = if t2 > tmax {
        tmax
    } else {
        t2
    };
    if c1 >= c2 {
        None
    } else {
        let c1b = if c1 < 0 {
            0
        } else {
            c1
        };
        let dist_inside = fx_mul_spec(c2 - c1b, len);
        let hit_dist = fx_mul_spec(-neg_inv_density, neg_ln_unit_spec(u + 1));
        if hit_dist > dist_inside {
            None
        } else {
            let t = c1b + fx_div_spec(hit_dist, len);
            if t > tmax {
                None
            } else {
                Some(t)
            }
        }
    }
}

/// Decides where (and whether) a constant medium scatters, given the
/// boundary passage and the drawn sample.  Pinned exactly; in particular a
/// flight distance beyond the passage yields no hit, so the hit
/// probability vanishes with the density.
pub fn medium_hit_time(
    t1: i128,
    t2: i128,
    t_min: i128,
    t_max: i128,
    len: i128,
    neg_inv_density: i128,
    u: i128,
) -> (res: Option<i128>)
    requires
        1 <= len <= 2000000000,
        -4294967297 < neg_inv_density < 0,
        0 <= u < SCALE,
        -2 * WMAX <= t1 <= 2 * WMAX,
        -2 * WMAX <= t2 <= 2 * WMAX,
        -WMAX <= t_min <= WMAX,
        -WMAX <= t_max <= WMAX,
    ensures
        ({
            let spec = medium_time_spec(
                t1 as int,
                t2 as int,
                t_min as int,
                t_max as int,
                len as int,
                neg_inv_density as int,
                u as int,
            );
            match res {
                None => spec is None,
                Some(t) => spec == Some(t as int),
            }
        }),
        res matches Some(t) ==> t_min <= t <= t_max && 0 <= t,
{
    let c1 = if t1 < t_min {
        t_min
    } else {
        t1
    };
    let c2 = if t2 > t_max {
        t_max
    } else {
        t2
    };
    if c1 >= c2 {
        return None;
    }
    let c1b = if c1 < 0 {
        0
    } else {
        c1
    };
    proof {
        lemma_fx_mul_val_bound(c2 as int - c1b as int, len as int, 68719476736, 2000000000);
    }
    let dist_inside = fx_mul(c2 - c1b, len);
    let nl = fx_neg_ln_unit(u + 1);
    proof {
        lemma_fx_mul_val_bound(-(neg_inv_density as int), nl as int, 4294967296, 772242);
        assert(4294967296int * 772242int / 65536int + 1 == 50609651713);
    }
    let hit_dist = fx_mul(-neg_inv_density, nl);
    if hit_dist > dist_inside {
        return None;
    }
    proof {
        assert(hit_dist >= 0) by {
            assert((-(neg_inv_density as int)) * nl as int >= 0) by (nonlinear_arith)
                requires
                    neg_inv_density < 0,
                    nl >= 0,
            ;
            lemma_tdiv_bounds((-(neg_inv_density as int)) * nl as int, SCALE as int);
        };
        lemma_mul_bound(hit_dist as int, SCALE as int, 50609651713, SCALE as int);
        lemma_tdiv_bounds(hit_dist as int * SCALE as int, len as int);
    }
    let off = fx_div(hit_dist, len);
    let t = c1b + off;
    if t > t_max {
        None
    } else {
        Some(t)
    }
}

/// Scaling a truncated quotient back up stays at or below the numerator.
proof fn lemma_div_scale_back(a: int, b: int)
    requires
        a >= 0,
        b >= 1,
    ensures
        tdiv(a, b) * b <= a,
{
    assert((a / b) * b <= a) by (nonlinear_arith)
        requires
            a >= 0,
            b >= 1,
    ;
}

/// Trees of spheres: a sphere, or a node over two such trees.
pub open spec fn sphere_tree(g: Geometry) -> bool
    decreases g,
{
    match g {
        Geometry::Sphere { .. } => true,
        Geometry::BVHNode { left, right, .. } => sphere_tree(*left) && sphere_tree(*right),
        _ => false,
    }
}

/// The documented box invariant: every node's box, when present, admits
/// every ray interval on which either subtree reports a hit.
pub open spec fn covered(g: Geometry) -> bool
    decreases g,
{
    match g {
        Geometry::BVHNode { left, right, bbox, .. } => {
            &&& (bbox matches Some(b) ==> box_admits(b, *left) && box_admits(b, *right))
            &&& covered(*left)
            &&& covered(*right)
        },
        _ => true,
    }
}

/// The box passes the slab test on every range where the geometry hits.
pub open spec fn box_admits(b: AABB, g: Geometry) -> bool {
    forall|r: Ray, tmin: int, tmax: int|
        ray_in_range(r) && -WMAX <= tmin <= WMAX && -WMAX <= tmax <= WMAX && (#[trigger] hit_spec(
            g,
            r,
            tmin,
            tmax,
        )) is Some ==> slab_spec(b, r, tmin, tmax)
}

/// The spheres at the leaves of a tree, in traversal order.
pub open spec fn leaves(g: Geometry) -> Seq<Geometry>
    decreases g,
{
    match g {
        Geometry::BVHNode { left, right, .. } => leaves(*left) + leaves(*right),
        _ => seq![g],
    }
}

/// A box that admits a geometry's hits still admits them after growing:
/// the union law carries the cover invariant upward through the tree.
pub proof fn lemma_union_admits(u: AABB, b: AABB, g: Geometry)
    requires
        contains_box(u, b),
        box_admits(b, g),
    ensures
        box_admits(u, g),
{
    assert forall|r: Ray, tmin: int, tmax: int|
        ray_in_range(r) && -WMAX <= tmin <= WMAX && -WMAX <= tmax <= WMAX && (#[trigger] hit_spec(
            g,
            r,
            tmin,
            tmax,
        )) is Some implies slab_spec(u, r, tmin, tmax) by {
        lemma_slab_mono(u, b, r, tmin, tmax, tmin, tmax);
    };
}

/// An interior node with a box admits itself: its traversal answers
/// nothing when its own slab test fails.
pub proof fn lemma_node_self_admits(g: Geometry)
    requires
        g matches Geometry::BVHNode { bbox, .. } && bbox is Some,
    ensures
        ({
            let b = g->BVHNode_bbox->Some_0;
            box_admits(b, g)
        }),
{
    let b = g->BVHNode_bbox->Some_0;
    assert forall|r: Ray, tmin: int, tmax: int|
        ray_in_range(r) && -WMAX <= tmin <= WMAX && -WMAX <= tmax <= WMAX && (#[trigger] hit_spec(
            g,
            r,
            tmin,
            tmax,
        )) is Some implies slab_spec(b, r, tmin, tmax) by {
        match g {
            Geometry::BVHNode { left, right, bbox, axis } => {
                if !slab_spec(b, r, tmin, tmax) {
                    assert(hit_spec(g, r, tmin, tmax) is None);
                }
            },
            _ => {},
        }
    };
}

/// A sphere whose own bounding box admits every hit it reports: the leaf
/// step of the box invariant (a numeric fact about the slab test and the
/// quadratic that is assumed, not derived, where the tree laws need it).
pub open spec fn sphere_admits(g: Geometry) -> bool {
    &&& g is Sphere
    &&& match bbox_spec(g, 0, 0) {
        Some(b) => box_admits(b, g),
        None => false,
    }
}

/// The nearest hit among `objects[i..]`, scanning front to back with a
/// shrinking far bound.
#[verifier::loop_isolation(false)]
pub fn scan_objects(objects: &Vec<Geometry>, i: usize, r: Ray, t_min: i128, t_max: i128) -> (res:
    Option<HitRecord>)
    requires
        forall|k: int| 0 <= k < objects.len() ==> geom_in_range(#[trigger] objects[k]),
        ray_in_range(r),
        -WMAX <= t_min <= WMAX,
        -WMAX <= t_max <= WMAX,
        i <= objects.len(),
    ensures
        (forall|k: int| i <= k < objects.len() ==> mirrored(#[trigger] objects[k]))
            ==> hit_matches(
            res,
            scan_seq_spec(objects@.skip(i as int), r, t_min as int, t_max as int),
        ),
        res matches Some(rec) ==> hit_in_range(rec, t_min as int, t_max as int),
        res matches Some(rec) ==> exists|m: Material|
            #[trigger] same_material(m, rec.material) && exists|k: int|
                i <= k < objects.len() && mat_in(m, #[trigger] objects[k]),
    decreases objects@, 2int, objects.len() - i,
{
    if i == objects.len() {
        proof {
            assert(objects@.skip(i as int).len() == 0);
        }
        return None;
    }
    proof {
        assert(decreases_to!(objects@, 2int, objects.len() - i => objects@[i as int], 1int, 0int));
        assert(objects@.skip(i as int)[0] == objects@[i as int]);
        assert(objects@.skip(i as int).drop_first() =~= objects@.skip(i as int + 1));
    }
    let first = objects[i].intersect(r, t_min, t_max);
    match first {
        None => scan_objects(objects, i + 1, r, t_min, t_max),
        Some(h) => {
            let rest = scan_objects(objects, i + 1, r, t_min, h.t);
            match rest {
                Some(h2) => Some(h2),
                None => Some(h),
            }
        },
    }
}

/// The interpolated center of a moving sphere at a ray time.
fn moving_sphere_center(c0: Point3, c1: Point3, time0: i128, time1: i128, time: i128) -> (center:
    Point3)
    requires
        vec_in_range(c0, WMAX as int),
        vec_in_range(c1, WMAX as int),
        -WMAX <= time0 <= WMAX,
        -WMAX <= time1 <= WMAX,
        time1 != time0,
        -WMAX <= time <= WMAX,
    ensures
        center == moving_center_spec(c0, c1, time0 as int, time1 as int, time as int),
        vec_in_range(center, 137438953472),
{
    proof {
        lemma_mul_bound(time as int - time0 as int, SCALE as int, 2 * WMAX as int, SCALE as int);
    }
    let raw = fx_div(time - time0, time1 - time0);
    let sc = if raw < -SCALE {
        -SCALE
    } else if raw > 2 * SCALE {
        2 * SCALE
    } else {
        raw
    };
    proof {
        lemma_fx_mul_val_bound(c1.x as int - c0.x as int, sc as int, 34359738368, 131072);
        lemma_fx_mul_val_bound(c1.y as int - c0.y as int, sc as int, 34359738368, 131072);
        lemma_fx_mul_val_bound(c1.z as int - c0.z as int, sc as int, 34359738368, 131072);
        assert(34359738368int * 131072int / 65536int + 1 == 68719476737);
    }
    Vec3 {
        x: c0.x + fx_mul(c1.x - c0.x, sc),
        y: c0.y + fx_mul(c1.y - c0.y, sc),
        z: c0.z + fx_mul(c1.z - c0.z, sc),
    }
}

/// The constant-medium intersection: brackets the ray passage through the
/// boundary with two nested searches, then lets the sampled free flight
/// decide.  For a mirrored boundary the deterministic failures (no
/// bracket, a bracket at the far edge of the range, a degenerate ray
/// speed) are pinned, and every scatter is the exact free-flight decision
/// for some drawn sample.  The scattering normal is arbitrary by
/// convention.
#[verifier::rlimit(100)]
#[verifier::spinoff_prover]
fn medium_intersect(
    boundary: &Geometry,
    neg_inv_density: i128,
    material: &Material,
    r: Ray,
    t_min: i128,
    t_max: i128,
) -> (res: Option<HitRecord>)
    requires
        geom_in_range(*boundary),
        -4294967297 < neg_inv_density < 0,
        ray_in_range(r),
        -WMAX <= t_min <= WMAX,
        -WMAX <= t_max <= WMAX,
    ensures
        res matches Some(rec) ==> hit_in_range(rec, t_min as int, t_max as int),
        res matches Some(rec) ==> exists|m: Material|
            #[trigger] same_material(m, rec.material) && m == *material,
        mirrored(*boundary) ==> ({
            let h1o = hit_spec(*boundary, r, -(WMAX as int), WMAX as int);
            match h1o {
                None => res is None,
                Some(h1) => if h1.t > WMAX - 128 {
                    res is None
                } else {
                    let h2o = hit_spec(*boundary, r, h1.t + T_EPS as int, WMAX as int);
                    match h2o {
                        None => res is None,
                        Some(h2) => {
                            let len = length_spec(r.direction);
                            if len == 0 || len > 2000000000 {
                                res is None
                            } else {
                                match res {
                                    None => true,
                                    Some(rec) => exists|u: i128|
                                        0 <= u < SCALE && medium_time_spec(
                                            h1.t as int,
                                            h2.t as int,
                                            t_min as int,
                                            t_max as int,
                                            len,
                                            neg_inv_density as int,
                                            u as int,
                                        ) == Some(rec.t as int) && rec.point == ray_at_spec(
                                            r,
                                            rec.t as int,
                                        ) && rec.normal == (Vec3 { x: SCALE, y: 0, z: 0 })
                                            && rec.front_face && rec.u == 0 && rec.v == 0,
                                }
                            }
                        },
                    }
                },
            }
        }),
    decreases boundary, 2int, 0int,
{
    let rec1 = boundary.intersect(r, -WMAX, WMAX);
    match rec1 {
        None => None,
        Some(h1) => {
            if h1.t > WMAX - 128 {
                return None;
            }
            let rec2 = boundary.intersect(r, h1.t + T_EPS, WMAX);
            match rec2 {
                None => None,
                Some(h2) => {
                    proof {
                        lemma_length_squared_bound(r.direction, DLIM as int);
                    }
                    let len = r.direction.length();
                    if len == 0 || len > 2000000000 {
                        return None;
                    }
                    let u = random();
                    let tm = medium_hit_time(h1.t, h2.t, t_min, t_max, len, neg_inv_density, u);
                    match tm {
                        None => None,
                        Some(rt) => {
                            proof {
                                lemma_fx_mul_val_bound(
                                    r.direction.x as int,
                                    rt as int,
                                    DLIM as int,
                                    WMAX as int,
                                );
                                lemma_fx_mul_val_bound(
                                    r.direction.y as int,
                                    rt as int,
                                    DLIM as int,
                                    WMAX as int,
                                );
                                lemma_fx_mul_val_bound(
                                    r.direction.z as int,
                                    rt as int,
                                    DLIM as int,
                                    WMAX as int,
                                );
                            }
                            let point = r.at(rt);
                            let mut rec = HitRecord::new(point, rt);
                            rec.normal = Vec3 { x: SCALE, y: 0, z: 0 };
                            rec.front_face = true;
                            rec.material = material.clone();
                            Some(rec)
                        },
                    }
                },
            }
        },
    }
}

/// The translation-instance intersection: shift the ray, delegate, shift
/// the hit point back.  Rays whose shifted origin leaves the coordinate
/// range miss.
#[verifier::rlimit(100)]
#[verifier::spinoff_prover]
fn translate_intersect(
    child: &Geometry,
    displacement: Vec3,
    r: Ray,
    t_min: i128,
    t_max: i128,
) -> (res: Option<HitRecord>)
    requires
        geom_in_range(*child),
        vec_in_range(displacement, WMAX as int),
        ray_in_range(r),
        -WMAX <= t_min <= WMAX,
        -WMAX <= t_max <= WMAX,
    ensures
        mirrored(*child) ==> hit_matches(
            res,
            hit_spec(
                Geometry::TranslateInstance { child: Box::new(*child), displacement },
                r,
                t_min as int,
                t_max as int,
            ),
        ),
        res matches Some(rec) ==> hit_in_range(rec, t_min as int, t_max as int),
        res matches Some(rec) ==> exists|m: Material|
            #[trigger] same_material(m, rec.material) && mat_in(m, *child),
    decreases child, 2int, 0int,
{
    let ox = r.origin.x - displacement.x;
    let oy = r.origin.y - displacement.y;
    let oz = r.origin.z - displacement.z;
    if ox < -OLIM || ox > OLIM || oy < -OLIM || oy > OLIM || oz < -OLIM || oz > OLIM {
        return None;
    }
    let moved = Ray { origin: Vec3 { x: ox, y: oy, z: oz }, direction: r.direction, time: r.time };
    let inner = child.intersect(moved, t_min, t_max);
    match inner {
        None => None,
        Some(mut rec) => {
            let p = Vec3 {
                x: rec.point.x + displacement.x,
                y: rec.point.y + displacement.y,
                z: rec.point.z + displacement.z,
            };
            if p.x < -PLIM || p.x > PLIM || p.y < -PLIM || p.y > PLIM || p.z < -PLIM || p.z
                > PLIM {
                return None;
            }
            let n = rec.normal;
            rec.point = p;
            rec.set_face_normal(moved, n);
            Some(rec)
        },
    }
}

/// The rotation-instance intersection: rotate the ray into the object
/// frame, delegate, rotate the hit back, pinned exactly by
/// `rotate_hit_spec` for mirrored children.  Coordinates pushed out of
/// range by the rotation miss, and a normal blown up by repeated
/// instancing is renormalized.
#[verifier::rlimit(100)]
#[verifier::spinoff_prover]
fn rotate_intersect(
    child: &Geometry,
    axis: Axis,
    sin_theta: i128,
    cos_theta: i128,
    r: Ray,
    t_min: i128,
    t_max: i128,
) -> (res: Option<HitRecord>)
    requires
        geom_in_range(*child),
        -SCALE <= sin_theta <= SCALE,
        -SCALE <= cos_theta <= SCALE,
        ray_in_range(r),
        -WMAX <= t_min <= WMAX,
        -WMAX <= t_max <= WMAX,
    ensures
        mirrored(*child) ==> hit_matches(
            res,
            rotate_hit_spec(*child, axis, sin_theta, cos_theta, r, t_min as int, t_max as int),
        ),
        res matches Some(rec) ==> hit_in_range(rec, t_min as int, t_max as int),
        res matches Some(rec) ==> exists|m: Material|
            #[trigger] same_material(m, rec.material) && mat_in(m, *child),
    decreases child, 2int, 0int,
{
    let rotated = rotate_ray(r, axis, sin_theta, cos_theta);
    match rotated {
        None => None,
        Some(rr) => {
            let inner = child.intersect(rr, t_min, t_max);
            match inner {
                None => None,
                Some(mut rec) => {
                    let p = rotate_back(rec.point, axis, sin_theta, cos_theta);
                    let n0 = rotate_back(rec.normal, axis, sin_theta, cos_theta);
                    if p.x < -PLIM || p.x > PLIM || p.y < -PLIM || p.y > PLIM || p.z < -PLIM
                        || p.z > PLIM {
                        return None;
                    }
                    let n = if n0.x < -589824 || n0.x > 589824 || n0.y < -589824 || n0.y > 589824
                        || n0.z < -589824 || n0.z > 589824 {
                        unit_or_default(n0)
                    } else {
                        n0
                    };
                    rec.point = p;
                    rec.set_face_normal(rr, n);
                    Some(rec)
                },
            }
        },
    }
}

impl Geometry {
    /// The kind of this geometry value.
    pub fn geometry_type(&self) -> (k: GeometryType)
    {
        match self {
            Geometry::Sphere { .. } => GeometryType::Sphere,
            Geometry::MovingSphere { .. } => GeometryType::MovingSphere,
            Geometry::XYRect { .. } => GeometryType::XYRect,
            Geometry::XZRect { .. } => GeometryType::XZRect,
            Geometry::YZRect { .. } => GeometryType::YZRect,
            Geometry::Cuboid { .. } => GeometryType::Cuboid,
            Geometry::ConstantMedium { .. } => GeometryType::ConstantMedium,
            Geometry::TranslateInstance { .. } => GeometryType::TranslateInstance,
            Geometry::RotateInstance { .. } => GeometryType::YRotationInstance,
            Geometry::BVHNode { .. } => GeometryType::BVHNode,
            Geometry::Triangle { .. } => GeometryType::Triangle,
        }
    }

    /// The nearest intersection of the ray with this geometry in
    /// [t_min, t_max].  For the deterministic variants the result is pinned
    /// exactly by `hit_spec`; every hit is within range and carries a
    /// faithful copy of a material of the tree.
    #[verifier::rlimit(100)]
    #[verifier::spinoff_prover]
    pub fn intersect(&self, r: Ray, t_min: i128, t_max: i128) -> (res: Option<HitRecord>)
        requires
            geom_in_range(*self),
            ray_in_range(r),
            -WMAX <= t_min <= WMAX,
            -WMAX <= t_max <= WMAX,
        ensures
            mirrored(*self) ==> hit_matches(
                res,
                hit_spec(*self, r, t_min as int, t_max as int),
            ),
            res matches Some(rec) ==> hit_in_range(rec, t_min as int, t_max as int),
            res matches Some(rec) ==> exists|m: Material|
                #[trigger] same_material(m, rec.material) && mat_in(m, *self),
        decreases self, 1int, 0int,
    {
        match self {
            Geometry::Sphere { center, radius, material } => {
                let res = sphere_intersect(*center, *radius, material, r, t_min, t_max);
                proof {
                    if res is Some {
                        assert(same_material(*material, res->Some_0.material) && mat_in(
                            *material,
                            *self,
                        ));
                    }
                }
                res
            },
            Geometry::MovingSphere { center0, center1, time0, time1, radius, material } => {
                let center = moving_sphere_center(*center0, *center1, *time0, *time1, r.time);
                let res = sphere_intersect(center, *radius, material, r, t_min, t_max);
                proof {
                    if res is Some {
                        assert(same_material(*material, res->Some_0.material) && mat_in(
                            *material,
                            *self,
                        ));
                    }
                }
                res
            },
            Geometry::XYRect { x0, x1, y0, y1, k, material } => {
                let hit = rect_intersect(
                    *x0,
                    *x1,
                    *y0,
                    *y1,
                    *k,
                    r.origin.z,
                    r.direction.z,
                    r.origin.x,
                    r.direction.x,
                    r.origin.y,
                    r.direction.y,
                    t_min,
                    t_max,
                );
                match hit {
                    None => None,
                    Some((t, u, v)) => Some(
                        finish_rect_hit(r, t, u, v, Vec3 { x: 0, y: 0, z: SCALE }, material),
                    ),
                }
            },
            Geometry::XZRect { x0, x1, z0, z1, k, material } => {
                let hit = rect_intersect(
                    *x0,
                    *x1,
                    *z0,
                    *z1,
                    *k,
                    r.origin.y,
                    r.direction.y,
                    r.origin.x,
                    r.direction.x,
                    r.origin.z,
                    r.direction.z,
                    t_min,
                    t_max,
                );
                match hit {
                    None => None,
                    Some((t, u, v)) => Some(
                        finish_rect_hit(r, t, u, v, Vec3 { x: 0, y: SCALE, z: 0 }, material),
                    ),
                }
            },
            Geometry::YZRect { y0, y1, z0, z1, k, material } => {
                let hit = rect_intersect(
                    *y0,
                    *y1,
                    *z0,
                    *z1,
                    *k,
                    r.origin.x,
                    r.direction.x,
                    r.origin.y,
                    r.direction.y,
                    r.origin.z,
                    r.direction.z,
                    t_min,
                    t_max,
                );
                match hit {
                    None => None,
                    Some((t, u, v)) => Some(
                        finish_rect_hit(r, t, u, v, Vec3 { x: SCALE, y: 0, z: 0 }, material),
                    ),
                }
            },
            Geometry::Cuboid { sides, .. } => {
                proof {
                    assert(sides@.skip(0) =~= sides@);
                }
                let res = scan_objects(sides, 0, r, t_min, t_max);
                res
            },
            Geometry::ConstantMedium { boundary, neg_inv_density, material } => {
                let res = medium_intersect(boundary, *neg_inv_density, material, r, t_min, t_max);
                proof {
                    if res is Some {
                        let m = choose|m: Material|
                            #[trigger] same_material(m, res->Some_0.material) && m == *material;
                        assert(mat_in(m, *self));
                    }
                }
                res
            },
            Geometry::TranslateInstance { child, displacement } => translate_intersect(
                child,
                *displacement,
                r,
                t_min,
                t_max,
            ),
            Geometry::RotateInstance { child, axis, sin_theta, cos_theta, .. } => rotate_intersect(
                child,
                *axis,
                *sin_theta,
                *cos_theta,
                r,
                t_min,
                t_max,
            ),
            Geometry::BVHNode { left, right, bbox, axis } => {
                match bbox {
                    Some(b) => {
                        if !b.intersect(r, t_min, t_max) {
                            return None;
                        }
                    },
                    None => {},
                }
                let d_axis = if *axis == 1 {
                    r.direction.y
                } else if *axis == 2 {
                    r.direction.z
                } else {
                    r.direction.x
                };
                if d_axis >= 0 {
                    match left.intersect(r, t_min, t_max) {
                        Some(left_hit) => {
                            let right_hit = right.intersect(r, t_min, left_hit.t);
                            match right_hit {
                                Some(rh) => Some(rh),
                                None => Some(left_hit),
                            }
                        },
                        None => right.intersect(r, t_min, t_max),
                    }
                } else {
                    match right.intersect(r, t_min, t_max) {
                        Some(right_hit) => {
                            let left_hit = left.intersect(r, t_min, right_hit.t);
                            match left_hit {
                                Some(lh) => Some(lh),
                                None => Some(right_hit),
                            }
                        },
                        None => left.intersect(r, t_min, t_max),
                    }
                }
            },
            Geometry::Triangle { p0, p1, p2, normal, material } => triangle_intersect(
                *p0,
                *p1,
                *p2,
                *normal,
                material,
                Ghost(*self),
                r,
                t_min,
                t_max,
            ),
        }
    }
}

/// Builds the oriented hit record of an axis rectangle.
fn finish_rect_hit(r: Ray, t: i128, u: i128, v: i128, out_normal: Vec3, material: &Material) -> (rec:
    HitRecord)
    requires
        ray_in_range(r),
        vec_in_range(out_normal, SCALE as int),
        -WMAX <= t <= WMAX,
        -FX_LIM <= u <= FX_LIM,
        -FX_LIM <= v <= FX_LIM,
    ensures
        ({
            let info = rect_info(r, t as int, u as int, v as int, out_normal, *material);
            rec.point == info.point && rec.normal == info.normal && rec.t == info.t && rec.u
                == info.u && rec.v == info.v && rec.front_face == info.front_face
                && same_material(info.mat, rec.material)
        }),
        vec_in_range(rec.point, PLIM as int),
        vec_in_range(rec.normal, 9 * SCALE as int),
        rec.t == t,
        rec.u == u,
        rec.v == v,
{
    proof {
        lemma_fx_mul_val_bound(r.direction.x as int, t as int, DLIM as int, WMAX as int);
        lemma_fx_mul_val_bound(r.direction.y as int, t as int, DLIM as int, WMAX as int);
        lemma_fx_mul_val_bound(r.direction.z as int, t as int, DLIM as int, WMAX as int);
    }
    let point = r.at(t);
    let mut rec = HitRecord::new(point, t);
    rec.set_uv((u, v));
    rec.set_face_normal(r, out_normal);
    rec.material = material.clone();
    rec
}

/// Rotates a ray into the object frame of a rotation instance, or `None`
/// when the rotated coordinates leave the supported range.
fn rotate_ray(r: Ray, axis: Axis, sin_theta: i128, cos_theta: i128) -> (res: Option<Ray>)
    requires
        ray_in_range(r),
        -SCALE <= sin_theta <= SCALE,
        -SCALE <= cos_theta <= SCALE,
    ensures
        res == rotate_ray_spec(r, axis, sin_theta, cos_theta),
        res matches Some(rr) ==> ray_in_range(rr) && rr.time == r.time,
{
    proof {
        lemma_rot_bounds();
    }
    let (o1, o2) = rot_pair(axis, r.origin);
    let no1 = fx_mul(cos_theta, o1) - fx_mul(sin_theta, o2);
    let no2 = fx_mul(sin_theta, o1) + fx_mul(cos_theta, o2);
    let (d1, d2) = rot_pair(axis, r.direction);
    let nd1 = fx_mul(cos_theta, d1) - fx_mul(sin_theta, d2);
    let nd2 = fx_mul(sin_theta, d1) + fx_mul(cos_theta, d2);
    if no1 < -OLIM || no1 > OLIM || no2 < -OLIM || no2 > OLIM || nd1 < -DLIM || nd1 > DLIM || nd2
        < -DLIM || nd2 > DLIM {
        return None;
    }
    let origin = rot_unpair(axis, r.origin, no1, no2);
    let direction = rot_unpair(axis, r.direction, nd1, nd2);
    Some(Ray { origin, direction, time: r.time })
}

/// The two components a rotation about the given axis mixes.
fn rot_pair(axis: Axis, v: Vec3) -> (p: (i128, i128))
    ensures
        axis == Axis::Y ==> p == (v.x, v.z),
        axis == Axis::X ==> p == (v.y, v.z),
        axis == Axis::Z ==> p == (v.x, v.y),
{
    match axis {
        Axis::Y => (v.x, v.z),
        Axis::X => (v.y, v.z),
        Axis::Z => (v.x, v.y),
    }
}

/// The vector with the mixed components replaced.
fn rot_unpair(axis: Axis, v: Vec3, a: i128, b: i128) -> (r: Vec3)
    ensures
        axis == Axis::Y ==> r == (Vec3 { x: a, y: v.y, z: b }),
        axis == Axis::X ==> r == (Vec3 { x: v.x, y: a, z: b }),
        axis == Axis::Z ==> r == (Vec3 { x: a, y: b, z: v.z }),
{
    match axis {
        Axis::Y => Vec3 { x: a, y: v.y, z: b },
        Axis::X => Vec3 { x: v.x, y: a, z: b },
        Axis::Z => Vec3 { x: a, y: b, z: v.z },
    }
}

/// Bounds for rotation products: a sine or cosine times a bounded
/// coordinate stays near that bound.
proof fn lemma_rot_bounds()
    ensures
        forall|c: int, x: int|
            -65536 <= c <= 65536 && -562949953421312 <= x <= 562949953421312 ==> -562949953421313
                <= #[trigger] fx_mul_spec(c, x) <= 562949953421313,
{
    assert forall|c: int, x: int|
        -65536 <= c <= 65536 && -562949953421312 <= x <= 562949953421312 implies -562949953421313
        <= #[trigger] fx_mul_spec(c, x) <= 562949953421313 by {
        lemma_fx_mul_val_bound(c, x, 65536, 562949953421312);
    };
}

/// Rotates a point or normal back into the world frame.
fn rotate_back(v: Vec3, axis: Axis, sin_theta: i128, cos_theta: i128) -> (r: Vec3)
    requires
        vec_in_range(v, PLIM as int),
        -SCALE <= sin_theta <= SCALE,
        -SCALE <= cos_theta <= SCALE,
    ensures
        r == rotate_back_spec(v, axis, sin_theta, cos_theta),
        vec_in_range(r, 2 * PLIM as int + 2),
{
    proof {
        lemma_rot_bounds();
    }
    let (a, b) = rot_pair(axis, v);
    let na = fx_mul(cos_theta, a) + fx_mul(sin_theta, b);
    let nb = -fx_mul(sin_theta, a) + fx_mul(cos_theta, b);
    rot_unpair(axis, v, na, nb)
}

/// The triangle intersection: the plane crossing followed by the three
/// edge-orientation tests, pinned exactly by `triangle_hit_spec`.  Rays
/// parallel to the plane and hits beyond the queried range are rejected.
fn triangle_intersect(
    p0: Point3,
    p1: Point3,
    p2: Point3,
    normal: Vec3,
    material: &Material,
    ghost_self: Ghost<Geometry>,
    r: Ray,
    t_min: i128,
    t_max: i128,
) -> (res: Option<HitRecord>)
    requires
        vec_in_range(p0, WMAX as int),
        vec_in_range(p1, WMAX as int),
        vec_in_range(p2, WMAX as int),
        vec_in_range(normal, 2 * SCALE as int),
        ray_in_range(r),
        -WMAX <= t_min <= WMAX,
        -WMAX <= t_max <= WMAX,
        ghost_self@ matches Geometry::Triangle { material: m, .. } && m == *material,
    ensures
        hit_matches(
            res,
            triangle_hit_spec(p0, p1, p2, normal, *material, r, t_min as int, t_max as int),
        ),
        res matches Some(rec) ==> hit_in_range(rec, t_min as int, t_max as int),
        res matches Some(rec) ==> exists|m: Material|
            #[trigger] same_material(m, rec.material) && mat_in(m, ghost_self@),
{
    proof {
        lemma_dot_bound2(normal, r.direction, 131072, DLIM as int);
        lemma_dot_bound2(normal, p0, 131072, WMAX as int);
        lemma_dot_bound2(normal, r.origin, 131072, OLIM as int);
    }
    let n_dot_dir = normal.dot(r.direction);
    if n_dot_dir == 0 {
        return None;
    }
    let d = -normal.dot(p0);
    let ndo = normal.dot(r.origin);
    proof {
        lemma_mul_bound(-(ndo as int + d as int), SCALE as int, 1000000000000, SCALE as int);
        lemma_tdiv_bounds(
            (-(ndo as int + d as int)) * SCALE as int,
            if n_dot_dir >= 0 {
                n_dot_dir as int
            } else {
                -(n_dot_dir as int)
            },
        );
    }
    let dist = fx_div(-(ndo + d), n_dot_dir);
    if dist < 0 || dist < t_min || dist > t_max {
        return None;
    }
    proof {
        lemma_fx_mul_val_bound(r.direction.x as int, dist as int, DLIM as int, WMAX as int);
        lemma_fx_mul_val_bound(r.direction.y as int, dist as int, DLIM as int, WMAX as int);
        lemma_fx_mul_val_bound(r.direction.z as int, dist as int, DLIM as int, WMAX as int);
    }
    let hit_pos = r.at(dist);
    if !edge_test(p0, p1, hit_pos, normal) {
        return None;
    }
    if !edge_test(p1, p2, hit_pos, normal) {
        return None;
    }
    if !edge_test(p2, p0, hit_pos, normal) {
        return None;
    }
    let mut rec = HitRecord::new(hit_pos, dist);
    rec.set_face_normal(r, normal);
    rec.material = material.clone();
    proof {
        assert(ghost_self@ matches Geometry::Triangle { material: m, .. } && same_material(
            m,
            rec.material,
        ) && mat_in(m, ghost_self@));
    }
    Some(rec)
}

/// One edge-orientation test: the hit lies on the inner side of the edge
/// from `a` to `b` as seen along the plane normal.
fn edge_test(a: Point3, b: Point3, hit: Point3, normal: Vec3) -> (inside: bool)
    requires
        vec_in_range(a, WMAX as int),
        vec_in_range(b, WMAX as int),
        vec_in_range(hit, 291000000000000),
        vec_in_range(normal, 131072),
    ensures
        inside == edge_ok_spec(a, b, hit, normal),
{
    let edge = b.sub(a);
    let vp = hit.sub(a);
    proof {
        lemma_edge_cross_bounds(edge, vp);
    }
    let perp = edge.cross(vp);
    let s = wide_dot(normal, perp);
    s >= 0
}

/// Bounds for the cross product of an edge with an offset to a hit point.
proof fn lemma_edge_cross_bounds(edge: Vec3, vp: Vec3)
    requires
        vec_in_range(edge, 34359738368),
        vec_in_range(vp, 310000000000000),
    ensures
        -325058560000000000002 <= crate::vec3::cross_x(edge, vp) <= 325058560000000000002,
        -325058560000000000002 <= crate::vec3::cross_y(edge, vp) <= 325058560000000000002,
        -325058560000000000002 <= crate::vec3::cross_z(edge, vp) <= 325058560000000000002,
{
    lemma_fx_mul_val_bound(edge.x as int, vp.y as int, 34359738368, 310000000000000);
    lemma_fx_mul_val_bound(edge.x as int, vp.z as int, 34359738368, 310000000000000);
    lemma_fx_mul_val_bound(edge.y as int, vp.x as int, 34359738368, 310000000000000);
    lemma_fx_mul_val_bound(edge.y as int, vp.z as int, 34359738368, 310000000000000);
    lemma_fx_mul_val_bound(edge.z as int, vp.x as int, 34359738368, 310000000000000);
    lemma_fx_mul_val_bound(edge.z as int, vp.y as int, 34359738368, 310000000000000);
    assert(34359738368int * 310000000000000int / 65536int + 1 == 162529280000000000001);
}

/// A dot product with asymmetric operand bounds, for long cross products.
fn wide_dot(a: Vec3, b: Vec3) -> (r: i128)
    requires
        vec_in_range(a, 2097152),
        vec_in_range(b, 1180591620717411303424),
    ensures
        r == dot_spec(a, b),
{
    proof {
        lemma_mul_bound(a.x as int, b.x as int, 2097152, 1180591620717411303424);
        lemma_mul_bound(a.y as int, b.y as int, 2097152, 1180591620717411303424);
        lemma_mul_bound(a.z as int, b.z as int, 2097152, 1180591620717411303424);
        lemma_tdiv_bounds(a.x as int * b.x as int + a.y as int * b.y as int + a.z as int
            * b.z as int, SCALE as int);
    }
    let s: i128 = a.x * b.x + a.y * b.y + a.z * b.z;
    crate::fx::tdiv_i(s, SCALE)
}

/// A box clamped into the stored-box coordinate range.
pub open spec fn clamp_box_spec(v: int) -> int {
    if v < -BLIM {
        -(BLIM as int)
    } else if v > BLIM {
        BLIM as int
    } else {
        v
    }
}

fn clamp_box(v: i128) -> (r: i128)
    requires
        -0x40000000000000000000000000000000 < v < 0x40000000000000000000000000000000,
    ensures
        r == clamp_box_spec(v as int),
        -BLIM <= r <= BLIM,
{
    if v < -BLIM {
        -BLIM
    } else if v > BLIM {
        BLIM
    } else {
        v
    }
}

/// One rotated (and clamped) corner of a box, indexed by the bit pattern
/// of `idx` over the three axes.
pub open spec fn rot_corner_spec(b: AABB, axis: Axis, s: i128, c: i128, idx: int) -> Vec3 {
    let x = if idx % 2 == 1 {
        b.maximum.x
    } else {
        b.minimum.x
    };
    let y = if (idx / 2) % 2 == 1 {
        b.maximum.y
    } else {
        b.minimum.y
    };
    let z = if (idx / 4) % 2 == 1 {
        b.maximum.z
    } else {
        b.minimum.z
    };
    match axis {
        Axis::Y => Vec3 {
            x: clamp_box_spec(
                fx_mul_spec(c as int, x as int) + fx_mul_spec(s as int, z as int),
            ) as i128,
            y: clamp_box_spec(y as int) as i128,
            z: clamp_box_spec(
                -fx_mul_spec(s as int, x as int) + fx_mul_spec(c as int, z as int),
            ) as i128,
        },
        Axis::X => Vec3 {
            x: clamp_box_spec(x as int) as i128,
            y: clamp_box_spec(
                fx_mul_spec(c as int, y as int) + fx_mul_spec(s as int, z as int),
            ) as i128,
            z: clamp_box_spec(
                -fx_mul_spec(s as int, y as int) + fx_mul_spec(c as int, z as int),
            ) as i128,
        },
        Axis::Z => Vec3 {
            x: clamp_box_spec(
                fx_mul_spec(c as int, x as int) + fx_mul_spec(s as int, y as int),
            ) as i128,
            y: clamp_box_spec(
                -fx_mul_spec(s as int, x as int) + fx_mul_spec(c as int, y as int),
            ) as i128,
            z: clamp_box_spec(z as int) as i128,
        },
    }
}

/// The componentwise min/max fold over the first `count` rotated corners,
/// seeded with the empty extremes.
pub open spec fn rot_fold_spec(b: AABB, axis: Axis, s: i128, c: i128, count: int) -> (Vec3, Vec3)
    decreases count,
{
    if count <= 0 {
        (Vec3 { x: BLIM, y: BLIM, z: BLIM }, Vec3 { x: (-BLIM) as i128, y: (-BLIM) as i128, z: (-BLIM) as i128 })
    } else {
        let prev = rot_fold_spec(b, axis, s, c, count - 1);
        let t = rot_corner_spec(b, axis, s, c, count - 1);
        (
            Vec3 {
                x: if prev.0.x <= t.x {
                    prev.0.x
                } else {
                    t.x
                },
                y: if prev.0.y <= t.y {
                    prev.0.y
                } else {
                    t.y
                },
                z: if prev.0.z <= t.z {
                    prev.0.z
                } else {
                    t.z
                },
            },
            Vec3 {
                x: if prev.1.x >= t.x {
                    prev.1.x
                } else {
                    t.x
                },
                y: if prev.1.y >= t.y {
                    prev.1.y
                } else {
                    t.y
                },
                z: if prev.1.z >= t.z {
                    prev.1.z
                } else {
                    t.z
                },
            },
        )
    }
}

/// The thickness padding of an axis-rectangle's bounding box.
pub const BOX_EPS: i128 = 7;

/// The bounding box of a geometry over a shutter interval: conservative
/// for the primitives, folded upward for composites, clamped into the
/// stored-box range for shifted boxes.
pub open spec fn bbox_spec(g: Geometry, t0: int, t1: int) -> Option<AABB>
    decreases g,
{
    match g {
        Geometry::Sphere { center, radius, .. } => Some(
            AABB {
                minimum: Vec3 {
                    x: (center.x - radius) as i128,
                    y: (center.y - radius) as i128,
                    z: (center.z - radius) as i128,
                },
                maximum: Vec3 {
                    x: (center.x + radius) as i128,
                    y: (center.y + radius) as i128,
                    z: (center.z + radius) as i128,
                },
            },
        ),
        Geometry::MovingSphere { center0, center1, time0, time1, radius, .. } => {
            let ca = moving_center_spec(center0, center1, time0 as int, time1 as int, t0);
            let cb = moving_center_spec(center0, center1, time0 as int, time1 as int, t1);
            Some(
                AABB {
                    minimum: Vec3 {
                        x: (if ca.x <= cb.x { ca.x } else { cb.x } - radius) as i128,
                        y: (if ca.y <= cb.y { ca.y } else { cb.y } - radius) as i128,
                        z: (if ca.z <= cb.z { ca.z } else { cb.z } - radius) as i128,
                    },
                    maximum: Vec3 {
                        x: (if ca.x >= cb.x { ca.x } else { cb.x } + radius) as i128,
                        y: (if ca.y >= cb.y { ca.y } else { cb.y } + radius) as i128,
                        z: (if ca.z >= cb.z { ca.z } else { cb.z } + radius) as i128,
                    },
                },
            )
        },
        Geometry::XYRect { x0, x1, y0, y1, k, .. } => Some(
            AABB {
                minimum: Vec3 { x: x0, y: y0, z: (k - BOX_EPS) as i128 },
                maximum: Vec3 { x: x1, y: y1, z: (k + BOX_EPS) as i128 },
            },
        ),
        Geometry::XZRect { x0, x1, z0, z1, k, .. } => Some(
            AABB {
                minimum: Vec3 { x: x0, y: (k - BOX_EPS) as i128, z: z0 },
                maximum: Vec3 { x: x1, y: (k + BOX_EPS) as i128, z: z1 },
            },
        ),
        Geometry::YZRect { y0, y1, z0, z1, k, .. } => Some(
            AABB {
                minimum: Vec3 { x: (k - BOX_EPS) as i128, y: y0, z: z0 },
                maximum: Vec3 { x: (k + BOX_EPS) as i128, y: y1, z: z1 },
            },
        ),
        Geometry::Cuboid { p0, p1, .. } => Some(AABB { minimum: p0, maximum: p1 }),
        Geometry::ConstantMedium { boundary, .. } => bbox_spec(*boundary, t0, t1),
        Geometry::TranslateInstance { child, displacement } => match bbox_spec(*child, t0, t1) {
            None => None,
            Some(b) => Some(
                AABB {
                    minimum: Vec3 {
                        x: clamp_box_spec(b.minimum.x + displacement.x) as i128,
                        y: clamp_box_spec(b.minimum.y + displacement.y) as i128,
                        z: clamp_box_spec(b.minimum.z + displacement.z) as i128,
                    },
                    maximum: Vec3 {
                        x: clamp_box_spec(b.maximum.x + displacement.x) as i128,
                        y: clamp_box_spec(b.maximum.y + displacement.y) as i128,
                        z: clamp_box_spec(b.maximum.z + displacement.z) as i128,
                    },
                },
            ),
        },
        Geometry::RotateInstance { has_box, bbox, .. } => if has_box {
            Some(bbox)
        } else {
            None
        },
        Geometry::BVHNode { bbox, .. } => bbox,
        Geometry::Triangle { p0, p1, p2, .. } => Some(
            AABB {
                minimum: Vec3 {
                    x: min3(p0.x as int, p1.x as int, p2.x as int) as i128,
                    y: min3(p0.y as int, p1.y as int, p2.y as int) as i128,
                    z: min3(p0.z as int, p1.z as int, p2.z as int) as i128,
                },
                maximum: Vec3 {
                    x: max3(p0.x as int, p1.x as int, p2.x as int) as i128,
                    y: max3(p0.y as int, p1.y as int, p2.y as int) as i128,
                    z: max3(p0.z as int, p1.z as int, p2.z as int) as i128,
                },
            },
        ),
    }
}

pub open spec fn min3(a: int, b: int, c: int) -> int {
    if a <= b && a <= c {
        a
    } else if b <= c {
        b
    } else {
        c
    }
}

pub open spec fn max3(a: int, b: int, c: int) -> int {
    if a >= b && a >= c {
        a
    } else if b >= c {
        b
    } else {
        c
    }
}

impl Geometry {
    /// The bounding box over [time_0, time_1], pinned by `bbox_spec`.
    /// The data-model reading of a box — it contains every point
    /// `intersect` can return over the interval — is captured by
    /// `box_admits`/`covered` and consumed by the tree laws; the leaf
    /// step (a sphere's own box admits its hits) is the `sphere_admits`
    /// hypothesis and is not derived here.  Boxes of composites are
    /// clamped into the stored range, so near the edge of the world
    /// range a clamped box can cut into the shape it wraps.
    pub fn bounding_box(&self, time_0: i128, time_1: i128) -> (res: Option<AABB>)
        requires
            geom_in_range(*self),
            -WMAX <= time_0 <= WMAX,
            -WMAX <= time_1 <= WMAX,
        ensures
            res == bbox_spec(*self, time_0 as int, time_1 as int),
            res matches Some(b) ==> vec_in_range(b.minimum, 274877906944)
                && vec_in_range(b.maximum, 274877906944),
        decreases self,
    {
        match self {
            Geometry::Sphere { center, radius, .. } => Some(
                AABB {
                    minimum: Vec3 {
                        x: center.x - radius,
                        y: center.y - radius,
                        z: center.z - radius,
                    },
                    maximum: Vec3 {
                        x: center.x + radius,
                        y: center.y + radius,
                        z: center.z + radius,
                    },
                },
            ),
            Geometry::MovingSphere { center0, center1, time0, time1, radius, .. } => {
                let ca = moving_sphere_center(*center0, *center1, *time0, *time1, time_0);
                let cb = moving_sphere_center(*center0, *center1, *time0, *time1, time_1);
                Some(
                    AABB {
                        minimum: Vec3 {
                            x: fx_min(ca.x, cb.x) - radius,
                            y: fx_min(ca.y, cb.y) - radius,
                            z: fx_min(ca.z, cb.z) - radius,
                        },
                        maximum: Vec3 {
                            x: fx_max(ca.x, cb.x) + radius,
                            y: fx_max(ca.y, cb.y) + radius,
                            z: fx_max(ca.z, cb.z) + radius,
                        },
                    },
                )
            },
            Geometry::XYRect { x0, x1, y0, y1, k, .. } => Some(
                AABB {
                    minimum: Vec3 { x: *x0, y: *y0, z: k - BOX_EPS },
                    maximum: Vec3 { x: *x1, y: *y1, z: k + BOX_EPS },
                },
            ),
            Geometry::XZRect { x0, x1, z0, z1, k, .. } => Some(
                AABB {
                    minimum: Vec3 { x: *x0, y: k - BOX_EPS, z: *z0 },
                    maximum: Vec3 { x: *x1, y: k + BOX_EPS, z: *z1 },
                },
            ),
            Geometry::YZRect { y0, y1, z0, z1, k, .. } => Some(
                AABB {
                    minimum: Vec3 { x: k - BOX_EPS, y: *y0, z: *z0 },
                    maximum: Vec3 { x: k + BOX_EPS, y: *y1, z: *z1 },
                },
            ),
            Geometry::Cuboid { p0, p1, .. } => Some(AABB { minimum: *p0, maximum: *p1 }),
            Geometry::ConstantMedium { boundary, .. } => boundary.bounding_box(time_0, time_1),
            Geometry::TranslateInstance { child, displacement } => {
                let inner = child.bounding_box(time_0, time_1);
                match inner {
                    None => None,
                    Some(b) => Some(
                        AABB {
                            minimum: Vec3 {
                                x: clamp_box(b.minimum.x + displacement.x),
                                y: clamp_box(b.minimum.y + displacement.y),
                                z: clamp_box(b.minimum.z + displacement.z),
                            },
                            maximum: Vec3 {
                                x: clamp_box(b.maximum.x + displacement.x),
                                y: clamp_box(b.maximum.y + displacement.y),
                                z: clamp_box(b.maximum.z + displacement.z),
                            },
                        },
                    ),
                }
            },
            Geometry::RotateInstance { has_box, bbox, .. } => {
                if *has_box {
                    Some(*bbox)
                } else {
                    None
                }
            },
            Geometry::BVHNode { bbox, .. } => *bbox,
            Geometry::Triangle { p0, p1, p2, .. } => Some(
                AABB {
                    minimum: Vec3 {
                        x: fx_min(p0.x, fx_min(p1.x, p2.x)),
                        y: fx_min(p0.y, fx_min(p1.y, p2.y)),
                        z: fx_min(p0.z, fx_min(p1.z, p2.z)),
                    },
                    maximum: Vec3 {
                        x: fx_max(p0.x, fx_max(p1.x, p2.x)),
                        y: fx_max(p0.y, fx_max(p1.y, p2.y)),
                        z: fx_max(p0.z, fx_max(p1.z, p2.z)),
                    },
                },
            ),
        }
    }

    pub fn sphere(center: Point3, radius: i128, material: Material) -> (r: Geometry)
        requires
            vec_in_range(center, WMAX as int),
            radius != 0,
            -WMAX <= radius <= WMAX,
        ensures
            r == (Geometry::Sphere { center, radius, material }),
            geom_in_range(r),
            mirrored(r),
    {
        Geometry::Sphere { center, radius, material }
    }

    pub fn moving_sphere(
        center0: Point3,
        center1: Point3,
        time0: i128,
        time1: i128,
        radius: i128,
        material: Material,
    ) -> (r: Geometry)
        requires
            vec_in_range(center0, WMAX as int),
            vec_in_range(center1, WMAX as int),
            radius != 0,
            -WMAX <= radius <= WMAX,
            -WMAX <= time0 <= WMAX,
            -WMAX <= time1 <= WMAX,
            time1 != time0,
        ensures
            r == (Geometry::MovingSphere { center0, center1, time0, time1, radius, material }),
            geom_in_range(r),
            mirrored(r),
    {
        Geometry::MovingSphere { center0, center1, time0, time1, radius, material }
    }

    pub fn xyrect(x0: i128, x1: i128, y0: i128, y1: i128, k: i128, material: Material) -> (r:
        Geometry)
        requires
            -WMAX <= x0 < x1 <= WMAX,
            -WMAX <= y0 < y1 <= WMAX,
            -WMAX <= k <= WMAX,
        ensures
            r == (Geometry::XYRect { x0, x1, y0, y1, k, material }),
            geom_in_range(r),
            mirrored(r),
    {
        Geometry::XYRect { x0, x1, y0, y1, k, material }
    }

    pub fn xzrect(x0: i128, x1: i128, z0: i128, z1: i128, k: i128, material: Material) -> (r:
        Geometry)
        requires
            -WMAX <= x0 < x1 <= WMAX,
            -WMAX <= z0 < z1 <= WMAX,
            -WMAX <= k <= WMAX,
        ensures
            r == (Geometry::XZRect { x0, x1, z0, z1, k, material }),
            geom_in_range(r),
            mirrored(r),
    {
        Geometry::XZRect { x0, x1, z0, z1, k, material }
    }

    pub fn yzrect(y0: i128, y1: i128, z0: i128, z1: i128, k: i128, material: Material) -> (r:
        Geometry)
        requires
            -WMAX <= y0 < y1 <= WMAX,
            -WMAX <= z0 < z1 <= WMAX,
            -WMAX <= k <= WMAX,
        ensures
            r == (Geometry::YZRect { y0, y1, z0, z1, k, material }),
            geom_in_range(r),
            mirrored(r),
    {
        Geometry::YZRect { y0, y1, z0, z1, k, material }
    }

    /// The axis-aligned box between two corners: six rectangles sharing
    /// the material, scanned like a small scene.
    pub fn cuboid(p0: Point3, p1: Point3, material: Material) -> (r: Geometry)
        requires
            vec_in_range(p0, WMAX as int),
            vec_in_range(p1, WMAX as int),
            p0.x < p1.x,
            p0.y < p1.y,
            p0.z < p1.z,
        ensures
            r matches Geometry::Cuboid { p0: q0, p1: q1, sides, material: m } && q0 == p0 && q1
                == p1 && sides.len() == 6 && same_material(material, m) && (sides[0] matches Geometry::XYRect {
                x0,
                x1,
                y0,
                y1,
                k,
                material: s0,
            } && x0 == p0.x && x1 == p1.x && y0 == p0.y && y1 == p1.y && k == p1.z
                && same_material(material, s0)) && (sides[1] matches Geometry::XYRect {
                x0,
                x1,
                y0,
                y1,
                k,
                material: s1,
            } && x0 == p0.x && x1 == p1.x && y0 == p0.y && y1 == p1.y && k == p0.z
                && same_material(material, s1)) && (sides[2] matches Geometry::XZRect {
                x0,
                x1,
                z0,
                z1,
                k,
                material: s2,
            } && x0 == p0.x && x1 == p1.x && z0 == p0.z && z1 == p1.z && k == p1.y
                && same_material(material, s2)) && (sides[3] matches Geometry::XZRect {
                x0,
                x1,
                z0,
                z1,
                k,
                material: s3,
            } && x0 == p0.x && x1 == p1.x && z0 == p0.z && z1 == p1.z && k == p0.y
                && same_material(material, s3)) && (sides[4] matches Geometry::YZRect {
                y0,
                y1,
                z0,
                z1,
                k,
                material: s4,
            } && y0 == p0.y && y1 == p1.y && z0 == p0.z && z1 == p1.z && k == p1.x
                && same_material(material, s4)) && (sides[5] matches Geometry::YZRect {
                y0,
                y1,
                z0,
                z1,
                k,
                material: s5,
            } && y0 == p0.y && y1 == p1.y && z0 == p0.z && z1 == p1.z && k == p0.x
                && same_material(material, s5)),
            geom_in_range(r),
            mirrored(r),
    {
        let mut sides: Vec<Geometry> = Vec::new();
        sides.push(Geometry::xyrect(p0.x, p1.x, p0.y, p1.y, p1.z, material.clone()));
        sides.push(Geometry::xyrect(p0.x, p1.x, p0.y, p1.y, p0.z, material.clone()));
        sides.push(Geometry::xzrect(p0.x, p1.x, p0.z, p1.z, p1.y, material.clone()));
        sides.push(Geometry::xzrect(p0.x, p1.x, p0.z, p1.z, p0.y, material.clone()));
        sides.push(Geometry::yzrect(p0.y, p1.y, p0.z, p1.z, p1.x, material.clone()));
        sides.push(Geometry::yzrect(p0.y, p1.y, p0.z, p1.z, p0.x, material.clone()));
        proof {
            assert(forall|i: int| 0 <= i < 6 ==> geom_in_range(#[trigger] sides[i]));
            assert(forall|i: int| 0 <= i < 6 ==> mirrored(#[trigger] sides[i]));
        }
        Geometry::Cuboid { p0, p1, sides, material }
    }

    /// A participating medium bounded by a geometry: scatters at a random
    /// free-flight distance scaled by the reciprocal density.
    pub fn constant_medium(boundary: Geometry, density: i128, color: Rgb) -> (r: Geometry)
        requires
            geom_in_range(boundary),
            1 <= density <= SCALE * SCALE,
        ensures
            r matches Geometry::ConstantMedium { boundary: b, neg_inv_density: nid, material: m }
                && *b == boundary && nid == -fx_div_spec(SCALE as int, density as int) && (
            m.mat_type matches MaterialType::Isotropic(t) && t.texture_type
                == TextureType::SolidColor(color)),
            geom_in_range(r),
    {
        proof {
            assert(SCALE as int * SCALE as int == 4294967296);
            lemma_tdiv_bounds(SCALE as int * SCALE as int, density as int);
            assert(4294967296int / (density as int) >= 1) by (nonlinear_arith)
                requires
                    1 <= density <= 4294967296,
            ;
        }
        let nid = -fx_div(SCALE, density);
        Geometry::ConstantMedium {
            boundary: Box::new(boundary),
            neg_inv_density: nid,
            material: Material::isotropic(color),
        }
    }

    pub fn instance_translation(geometry: Geometry, displacement: Vec3) -> (r: Geometry)
        requires
            geom_in_range(geometry),
            vec_in_range(displacement, WMAX as int),
        ensures
            r matches Geometry::TranslateInstance { child, displacement: d } && *child == geometry
                && d == displacement,
            geom_in_range(r),
            mirrored(geometry) ==> mirrored(r),
    {
        Geometry::TranslateInstance { child: Box::new(geometry), displacement }
    }

    /// A rotation instance about an axis: the sine and cosine are computed
    /// once, and the child's box corners are rotated (and clamped into the
    /// stored-box range) to bound the rotated shape.
    #[verifier::rlimit(100)]
    #[verifier::spinoff_prover]
    pub fn instance_rotation(geometry: Geometry, axis: Axis, angle: i128) -> (r: Geometry)
        requires
            geom_in_range(geometry),
            -36000 * SCALE <= angle <= 36000 * SCALE,
        ensures
            r matches Geometry::RotateInstance {
                child,
                axis: a,
                sin_theta,
                cos_theta,
                has_box,
                bbox,
            } && *child == geometry && a == axis && sin_theta == crate::trig::fx_sin_spec(
                crate::utils::to_radians_spec(angle as int),
            ) && cos_theta == crate::trig::fx_cos_spec(crate::utils::to_radians_spec(angle as int))
                && has_box == (bbox_spec(geometry, 0, SCALE as int) is Some) && ({
                let cb = match bbox_spec(geometry, 0, SCALE as int) {
                    Some(found) => found,
                    None => AABB {
                        minimum: Vec3 { x: 0, y: 0, z: 0 },
                        maximum: Vec3 { x: 0, y: 0, z: 0 },
                    },
                };
                let fold = rot_fold_spec(cb, axis, sin_theta, cos_theta, 8);
                bbox == (AABB { minimum: fold.0, maximum: fold.1 })
            }),
            geom_in_range(r),
    {
        let radians = crate::utils::to_radians(angle);
        let sin_theta = crate::trig::fx_sin(radians);
        let cos_theta = crate::trig::fx_cos(radians);
        let bbox_option = geometry.bounding_box(0, SCALE);
        let mut has_box = false;
        let bbox = match bbox_option {
            Some(aabb) => {
                has_box = true;
                aabb
            },
            None => AABB::empty(),
        };
        let mut minx: i128 = BLIM;
        let mut miny: i128 = BLIM;
        let mut minz: i128 = BLIM;
        let mut maxx: i128 = -BLIM;
        let mut maxy: i128 = -BLIM;
        let mut maxz: i128 = -BLIM;
        let mut corner: usize = 0;
        while corner < 8
            invariant
                corner <= 8,
                -BLIM <= minx <= BLIM,
                -BLIM <= miny <= BLIM,
                -BLIM <= minz <= BLIM,
                -BLIM <= maxx <= BLIM,
                -BLIM <= maxy <= BLIM,
                -BLIM <= maxz <= BLIM,
                -SCALE <= sin_theta <= SCALE,
                -SCALE <= cos_theta <= SCALE,
                vec_in_range(bbox.minimum, 274877906944),
                vec_in_range(bbox.maximum, 274877906944),
                ({
                    let fold = rot_fold_spec(bbox, axis, sin_theta, cos_theta, corner as int);
                    minx == fold.0.x && miny == fold.0.y && minz == fold.0.z && maxx == fold.1.x
                        && maxy == fold.1.y && maxz == fold.1.z
                }),
            decreases 8 - corner,
        {
            let x = if corner % 2 == 1 {
                bbox.maximum.x
            } else {
                bbox.minimum.x
            };
            let y = if (corner / 2) % 2 == 1 {
                bbox.maximum.y
            } else {
                bbox.minimum.y
            };
            let z = if (corner / 4) % 2 == 1 {
                bbox.maximum.z
            } else {
                bbox.minimum.z
            };
            proof {
                lemma_rot_bounds();
            }
            let tester = match axis {
                Axis::Y => {
                    let nx = fx_mul(cos_theta, x) + fx_mul(sin_theta, z);
                    let nz = -fx_mul(sin_theta, x) + fx_mul(cos_theta, z);
                    Vec3 { x: clamp_box(nx), y: clamp_box(y), z: clamp_box(nz) }
                },
                Axis::X => {
                    let ny = fx_mul(cos_theta, y) + fx_mul(sin_theta, z);
                    let nz = -fx_mul(sin_theta, y) + fx_mul(cos_theta, z);
                    Vec3 { x: clamp_box(x), y: clamp_box(ny), z: clamp_box(nz) }
                },
                Axis::Z => {
                    let nx = fx_mul(cos_theta, x) + fx_mul(sin_theta, y);
                    let ny = -fx_mul(sin_theta, x) + fx_mul(cos_theta, y);
                    Vec3 { x: clamp_box(nx), y: clamp_box(ny), z: clamp_box(z) }
                },
            };
            proof {
                assert(tester == rot_corner_spec(bbox, axis, sin_theta, cos_theta, corner as int));
            }
            minx = fx_min(minx, tester.x);
            miny = fx_min(miny, tester.y);
            minz = fx_min(minz, tester.z);
            maxx = fx_max(maxx, tester.x);
            maxy = fx_max(maxy, tester.y);
            maxz = fx_max(maxz, tester.z);
            corner = corner + 1;
        }
        Geometry::RotateInstance {
            child: Box::new(geometry),
            axis,
            sin_theta,
            cos_theta,
            has_box,
            bbox: AABB {
                minimum: Vec3 { x: minx, y: miny, z: minz },
                maximum: Vec3 { x: maxx, y: maxy, z: maxz },
            },
        }
    }

    /// A mesh: a BVH built over one triangle per vertex triple, all
    /// sharing the material.  File parsing is the caller's concern; the
    /// tree is built here.
    pub fn triangle_mesh(tris: Vec<(Point3, Point3, Point3)>, material: Material) -> (r: Geometry)
        requires
            tris.len() >= 1,
            forall|i: int|
                0 <= i < tris.len() ==> vec_in_range((#[trigger] tris[i]).0, WMAX as int)
                    && vec_in_range(tris[i].1, WMAX as int) && vec_in_range(tris[i].2, WMAX as int),
        ensures
            geom_in_range(r),
            leaves(r).to_multiset().len() == tris.len(),
            forall|g: Geometry|
                #[trigger] leaves(r).to_multiset().contains(g) ==> (g matches Geometry::Triangle {
                    p0,
                    p1,
                    p2,
                    material: gm,
                    ..
                } && (exists|i: int|
                    0 <= i < tris.len() && p0 == (#[trigger] tris[i]).0 && p1 == tris[i].1 && p2
                        == tris[i].2) && same_material(material, gm)),
    {
        let mut parts: Vec<Geometry> = Vec::new();
        let mut i: usize = 0;
        while i < tris.len()
            invariant
                i <= tris.len(),
                parts.len() == i,
                forall|k: int|
                    0 <= k < tris.len() ==> vec_in_range((#[trigger] tris[k]).0, WMAX as int)
                        && vec_in_range(tris[k].1, WMAX as int) && vec_in_range(
                        tris[k].2,
                        WMAX as int,
                    ),
                forall|k: int| 0 <= k < parts.len() ==> geom_in_range(#[trigger] parts[k]),
                forall|k: int| 0 <= k < parts.len() ==> has_box00(#[trigger] parts[k]),
                forall|k: int| 0 <= k < parts.len() ==> !(#[trigger] parts[k] is BVHNode),
                forall|k: int|
                    0 <= k < parts.len() ==> ((#[trigger] parts[k]) matches Geometry::Triangle {
                        p0,
                        p1,
                        p2,
                        material: gm,
                        ..
                    } && p0 == tris[k].0 && p1 == tris[k].1 && p2 == tris[k].2 && same_material(
                        material,
                        gm,
                    )),
            decreases tris.len() - i,
        {
            let (p0, p1, p2) = tris[i];
            let t = Geometry::triangle(p0, p1, p2, material.clone());
            proof {
                assert(bbox_spec(t, 0, 0) is Some);
            }
            parts.push(t);
            i = i + 1;
        }
        let ghost pseq = parts@;
        let tree = Geometry::bvh_node(parts, 0, SCALE);
        proof {
            assert(leaves(tree).to_multiset() == pseq.to_multiset());
            pseq.to_multiset_ensures();
            assert(leaves(tree).to_multiset().len() == pseq.len());
            assert forall|g: Geometry| #[trigger] leaves(tree).to_multiset().contains(g) implies (g
                matches Geometry::Triangle { p0, p1, p2, material: gm, .. } && (exists|i: int|
                0 <= i < tris.len() && p0 == (#[trigger] tris[i]).0 && p1 == tris[i].1 && p2
                    == tris[i].2) && same_material(material, gm)) by {
                assert(pseq.to_multiset().contains(g));
                assert(pseq.contains(g));
                let k = choose|k: int| 0 <= k < pseq.len() && pseq[k] == g;
                assert(pseq[k] matches Geometry::Triangle { p0, p1, p2, material: gm, .. } && p0
                    == tris[k].0 && p1 == tris[k].1 && p2 == tris[k].2 && same_material(
                    material,
                    gm,
                ));
            };
        }
        tree
    }

    /// A triangle with its plane normal precomputed (normalized, with a
    /// canonical fallback for degenerate vertices).
    pub fn triangle(p0: Point3, p1: Point3, p2: Point3, material: Material) -> (r: Geometry)
        requires
            vec_in_range(p0, WMAX as int),
            vec_in_range(p1, WMAX as int),
            vec_in_range(p2, WMAX as int),
        ensures
            r matches Geometry::Triangle { p0: q0, p1: q1, p2: q2, normal, material: m } && q0
                == p0 && q1 == p1 && q2 == p2 && m == material,
            geom_in_range(r),
    {
        let v0v1 = p1.sub(p0);
        let v0v2 = p2.sub(p0);
        proof {
            lemma_fx_mul_val_bound(v0v1.x as int, v0v2.y as int, 34359738368, 34359738368);
            lemma_fx_mul_val_bound(v0v1.x as int, v0v2.z as int, 34359738368, 34359738368);
            lemma_fx_mul_val_bound(v0v1.y as int, v0v2.x as int, 34359738368, 34359738368);
            lemma_fx_mul_val_bound(v0v1.y as int, v0v2.z as int, 34359738368, 34359738368);
            lemma_fx_mul_val_bound(v0v1.z as int, v0v2.x as int, 34359738368, 34359738368);
            lemma_fx_mul_val_bound(v0v1.z as int, v0v2.y as int, 34359738368, 34359738368);
        }
        let c = v0v1.cross(v0v2);
        let cc = Vec3 {
            x: crate::utils::clamp(c.x, -9007199254740992, 9007199254740992),
            y: crate::utils::clamp(c.y, -9007199254740992, 9007199254740992),
            z: crate::utils::clamp(c.z, -9007199254740992, 9007199254740992),
        };
        let normal = unit_or_default(cc);
        Geometry::Triangle { p0, p1, p2, normal, material }
    }
}

/// The geometry has a bounding box for the degenerate shutter interval
/// used by the build-time comparator.
pub open spec fn has_box00(g: Geometry) -> bool {
    bbox_spec(g, 0, 0) is Some
}

/// The build-time sort key: the box minimum along the chosen axis.
fn box_key(g: &Geometry, axis: usize) -> (k: i128)
    requires
        geom_in_range(*g),
        has_box00(*g),
    ensures
        -274877906944 <= k <= 274877906944,
{
    let b = g.bounding_box(0, 0);
    match b {
        Some(bb) => {
            if axis == 1 {
                bb.minimum.y
            } else if axis == 2 {
                bb.minimum.z
            } else {
                bb.minimum.x
            }
        },
        None => 0,
    }
}

/// Sorts geometries by their box minimum along an axis, by selection:
/// repeatedly extracts a minimal-key element.  Order-only: the result
/// holds exactly the well-formed elements given.
fn sort_by_key(objs: Vec<Geometry>, axis: usize) -> (r: Vec<Geometry>)
    requires
        forall|i: int| 0 <= i < objs.len() ==> geom_in_range(#[trigger] objs[i]),
        forall|i: int| 0 <= i < objs.len() ==> has_box00(#[trigger] objs[i]),
    ensures
        r.len() == objs.len(),
        r@.to_multiset() == objs@.to_multiset(),
        forall|i: int| 0 <= i < r.len() ==> geom_in_range(#[trigger] r[i]),
        forall|i: int| 0 <= i < r.len() ==> has_box00(#[trigger] r[i]),
        (forall|i: int| 0 <= i < objs.len() ==> mirrored(#[trigger] objs[i])) ==> (forall|i: int|
            0 <= i < r.len() ==> mirrored(#[trigger] r[i])),
        (forall|i: int| 0 <= i < objs.len() ==> #[trigger] objs[i] is Sphere) ==> (forall|i: int|
            0 <= i < r.len() ==> #[trigger] r[i] is Sphere),
        (forall|i: int| 0 <= i < objs.len() ==> sphere_admits(#[trigger] objs[i])) ==> (forall|
            i: int,
        | 0 <= i < r.len() ==> sphere_admits(#[trigger] r[i])),
        (forall|i: int| 0 <= i < objs.len() ==> !(#[trigger] objs[i] is BVHNode)) ==> (forall|
            i: int,
        | 0 <= i < r.len() ==> !(#[trigger] r[i] is BVHNode)),
{
    let ghost all_mirrored = forall|i: int| 0 <= i < objs.len() ==> mirrored(#[trigger] objs[i]);
    let ghost all_spheres = forall|i: int| 0 <= i < objs.len() ==> #[trigger] objs[i] is Sphere;
    let ghost all_admits = forall|i: int|
        0 <= i < objs.len() ==> sphere_admits(#[trigger] objs[i]);
    let ghost all_nonnode = forall|i: int|
        0 <= i < objs.len() ==> !(#[trigger] objs[i] is BVHNode);
    let mut src = objs;
    let mut out: Vec<Geometry> = Vec::new();
    let ghost total = src.len() as int;
    proof {
        assert(out@.to_multiset() =~= Multiset::empty()) by {
            out@.to_multiset_ensures();
        };
        assert(src@.to_multiset().add(out@.to_multiset()) =~= objs@.to_multiset());
    }
    while src.len() > 0
        invariant
            out.len() + src.len() == total,
            src@.to_multiset().add(out@.to_multiset()) == objs@.to_multiset(),
            forall|i: int| 0 <= i < src.len() ==> geom_in_range(#[trigger] src[i]),
            forall|i: int| 0 <= i < src.len() ==> has_box00(#[trigger] src[i]),
            forall|i: int| 0 <= i < out.len() ==> geom_in_range(#[trigger] out[i]),
            forall|i: int| 0 <= i < out.len() ==> has_box00(#[trigger] out[i]),
            all_mirrored ==> (forall|i: int| 0 <= i < src.len() ==> mirrored(#[trigger] src[i])),
            all_mirrored ==> (forall|i: int| 0 <= i < out.len() ==> mirrored(#[trigger] out[i])),
            all_spheres ==> (forall|i: int| 0 <= i < src.len() ==> #[trigger] src[i] is Sphere),
            all_spheres ==> (forall|i: int| 0 <= i < out.len() ==> #[trigger] out[i] is Sphere),
            all_admits ==> (forall|i: int|
                0 <= i < src.len() ==> sphere_admits(#[trigger] src[i])),
            all_admits ==> (forall|i: int|
                0 <= i < out.len() ==> sphere_admits(#[trigger] out[i])),
            all_nonnode ==> (forall|i: int|
                0 <= i < src.len() ==> !(#[trigger] src[i] is BVHNode)),
            all_nonnode ==> (forall|i: int|
                0 <= i < out.len() ==> !(#[trigger] out[i] is BVHNode)),
        decreases src.len(),
    {
        let mut best: usize = 0;
        let mut best_key = box_key(&src[0], axis);
        let mut j: usize = 1;
        while j < src.len()
            invariant
                0 < src.len(),
                best < src.len(),
                j <= src.len(),
                -274877906944 <= best_key <= 274877906944,
                forall|i: int| 0 <= i < src.len() ==> geom_in_range(#[trigger] src[i]),
                forall|i: int| 0 <= i < src.len() ==> has_box00(#[trigger] src[i]),
            decreases src.len() - j,
        {
            let kj = box_key(&src[j], axis);
            if kj < best_key {
                best = j;
                best_key = kj;
            }
            j = j + 1;
        }
        let ghost src0 = src@;
        let ghost out0 = out@;
        let g = src.remove(best);
        out.push(g);
        proof {
            src0.to_multiset_ensures();
            out0.to_multiset_ensures();
            assert(src@ == src0.remove(best as int));
            assert(src@.to_multiset() =~= src0.to_multiset().remove(src0[best as int]));
            assert(out@ == out0.push(g));
            assert(out@.to_multiset() =~= out0.to_multiset().insert(g));
            assert(src0.contains(g)) by {
                assert(src0[best as int] == g);
            };
            assert(src0.to_multiset().count(g) > 0);
            assert(src@.to_multiset().add(out@.to_multiset()) =~= src0.to_multiset().add(
                out0.to_multiset(),
            )) by {
                broadcast use vstd::multiset::group_multiset_axioms;

            };
            assert(forall|i: int|
                0 <= i < src@.len() ==> src@[i] == src0[if i < best { i } else { i + 1 }]);
        }
    }
    proof {
        src@.to_multiset_ensures();
        assert(src@.to_multiset() =~= Multiset::empty());
        assert(out@.to_multiset() =~= objs@.to_multiset()) by {
            broadcast use vstd::multiset::group_multiset_axioms;

        };
    }
    out
}

/// The multiset of a one-element sequence is the singleton multiset.
proof fn lemma_singleton_multiset(g: Geometry)
    ensures
        seq![g].to_multiset() =~= Multiset::empty().insert(g),
{
    let e = Seq::<Geometry>::empty();
    e.to_multiset_ensures();
    assert(e.to_multiset() =~= Multiset::empty());
    assert(seq![g] == e.push(g));
}

/// A sphere's box does not depend on the shutter interval, exists, and
/// lies inside the stored-box range.
proof fn lemma_sphere_box_facts(g: Geometry, t0: int, t1: int)
    requires
        g is Sphere,
        geom_in_range(g),
    ensures
        bbox_spec(g, t0, t1) == bbox_spec(g, 0, 0),
        bbox_spec(g, t0, t1) is Some,
        boxes_in_blim(bbox_spec(g, t0, t1)),
{
}

/// A sphere-tree child admits its hits at its own box: by hypothesis for
/// leaf spheres, by its own slab gate for interior nodes.
proof fn lemma_child_box_admits(child: Geometry, t0: int, t1: int)
    requires
        sphere_tree(child),
        geom_in_range(child),
        child is Sphere ==> sphere_admits(child),
        child is BVHNode ==> bbox_spec(child, t0, t1) is Some,
    ensures
        bbox_spec(child, t0, t1) is Some,
        bbox_spec(child, t0, t1) matches Some(b) ==> box_admits(b, child),
{
    match child {
        Geometry::Sphere { .. } => {
            lemma_sphere_box_facts(child, t0, t1);
        },
        Geometry::BVHNode { left, right, bbox, axis } => {
            lemma_node_self_admits(child);
        },
        _ => {},
    }
}

impl Geometry {
    /// Builds a BVH over the given geometries: a random split axis, a
    /// median split of the list ordered along it, and box unions folded
    /// upward.  A single geometry stands for itself (the node whose two
    /// children alias one object behaves identically).
    #[verifier::rlimit(100)]
    #[verifier::spinoff_prover]
    pub fn bvh_node(colliders: Vec<Geometry>, time_0: i128, time_1: i128) -> (r: Geometry)
        requires
            1 <= colliders.len(),
            forall|i: int| 0 <= i < colliders.len() ==> geom_in_range(#[trigger] colliders[i]),
            forall|i: int| 0 <= i < colliders.len() ==> has_box00(#[trigger] colliders[i]),
            -WMAX <= time_0 <= WMAX,
            -WMAX <= time_1 <= WMAX,
        ensures
            geom_in_range(r),
            (forall|i: int| 0 <= i < colliders.len() ==> mirrored(#[trigger] colliders[i]))
                ==> mirrored(r),
            (forall|i: int| 0 <= i < colliders.len() ==> #[trigger] colliders[i] is Sphere)
                ==> sphere_tree(r),
            (forall|i: int| 0 <= i < colliders.len() ==> !(#[trigger] colliders[i] is BVHNode))
                ==> leaves(r).to_multiset() == colliders@.to_multiset(),
            (forall|i: int| 0 <= i < colliders.len() ==> sphere_admits(#[trigger] colliders[i]))
                ==> covered(r) && bbox_spec(r, time_0 as int, time_1 as int) is Some
                && boxes_in_blim(bbox_spec(r, time_0 as int, time_1 as int)) && (r is Sphere
                ==> sphere_admits(r)),
        decreases colliders.len(),
    {
        let ghost all_mirrored = forall|i: int|
            0 <= i < colliders.len() ==> mirrored(#[trigger] colliders[i]);
        let ghost all_spheres = forall|i: int|
            0 <= i < colliders.len() ==> #[trigger] colliders[i] is Sphere;
        let ghost all_nonnode = forall|i: int|
            0 <= i < colliders.len() ==> !(#[trigger] colliders[i] is BVHNode);
        let ghost all_admits = forall|i: int|
            0 <= i < colliders.len() ==> sphere_admits(#[trigger] colliders[i]);
        let axis = randuint(0, 3);
        let mut objs = colliders;
        if objs.len() == 1 {
            let g = objs.swap_remove(0);
            proof {
                assert(g == colliders[0]);
                if all_spheres {
                    assert(colliders[0] is Sphere);
                    assert(sphere_tree(g));
                }
                if all_nonnode {
                    assert(!(g is BVHNode));
                    assert(leaves(g) == seq![g]);
                    assert(colliders@ =~= seq![g]);
                }
                if all_admits {
                    assert(sphere_admits(g));
                    lemma_sphere_box_facts(g, time_0 as int, time_1 as int);
                }
            }
            return g;
        }
        if objs.len() == 2 {
            let second = objs.swap_remove(1);
            let first = objs.swap_remove(0);
            let kf = box_key(&first, axis);
            let ks = box_key(&second, axis);
            let (left, right) = if kf <= ks {
                (first, second)
            } else {
                (second, first)
            };
            proof {
                assert((left == colliders[0] && right == colliders[1]) || (left == colliders[1]
                    && right == colliders[0]));
                if all_admits {
                    lemma_sphere_box_facts(left, time_0 as int, time_1 as int);
                    lemma_sphere_box_facts(right, time_0 as int, time_1 as int);
                }
            }
            let bl = left.bounding_box(time_0, time_1);
            let br = right.bounding_box(time_0, time_1);
            let bbox = union_boxes(bl, br);
            let node = Geometry::BVHNode {
                left: Box::new(left),
                right: Box::new(right),
                bbox,
                axis,
            };
            proof {
                if all_spheres {
                    assert(colliders[0] is Sphere);
                    assert(colliders[1] is Sphere);
                    assert(sphere_tree(left));
                    assert(sphere_tree(right));
                }
                if all_nonnode {
                    assert(leaves(left) == seq![left]);
                    assert(leaves(right) == seq![right]);
                    assert(leaves(node) == seq![left] + seq![right]);
                    vstd::seq_lib::lemma_multiset_commutative(seq![left], seq![right]);
                    lemma_singleton_multiset(left);
                    lemma_singleton_multiset(right);
                    lemma_singleton_multiset(colliders[0]);
                    lemma_singleton_multiset(colliders[1]);
                    assert(colliders@ =~= seq![colliders[0]] + seq![colliders[1]]);
                    vstd::seq_lib::lemma_multiset_commutative(
                        seq![colliders[0]],
                        seq![colliders[1]],
                    );
                    assert(leaves(node).to_multiset() =~= colliders@.to_multiset()) by {
                        broadcast use vstd::multiset::group_multiset_axioms;

                    };
                }
                if all_admits {
                    let b = bbox->Some_0;
                    assert(contains_box(b, bl->Some_0) && contains_box(b, br->Some_0));
                    lemma_union_admits(b, bl->Some_0, left);
                    lemma_union_admits(b, br->Some_0, right);
                    assert(covered(left) && covered(right));
                    assert(covered(node));
                    assert(bbox_spec(node, time_0 as int, time_1 as int) == bbox);
                }
            }
            return node;
        }
        let mut sorted = sort_by_key(objs, axis);
        let ghost s_pre = sorted@;
        let mid = sorted.len() / 2;
        let right_half = sorted.split_off(mid);
        proof {
            assert(sorted@.len() == mid as int);
            assert(right_half@.len() >= 1);
            assert(s_pre =~= sorted@ + right_half@);
            assert(forall|i: int|
                0 <= i < sorted@.len() ==> geom_in_range(#[trigger] sorted@[i]));
            if all_spheres {
                assert(forall|i: int| 0 <= i < sorted@.len() ==> #[trigger] sorted@[i] is Sphere);
                assert(forall|i: int|
                    0 <= i < right_half@.len() ==> #[trigger] right_half@[i] is Sphere);
            }
            if all_nonnode {
                assert(forall|i: int|
                    0 <= i < sorted@.len() ==> !(#[trigger] sorted@[i] is BVHNode));
                assert(forall|i: int|
                    0 <= i < right_half@.len() ==> !(#[trigger] right_half@[i] is BVHNode));
            }
            if all_admits {
                assert(forall|i: int|
                    0 <= i < sorted@.len() ==> sphere_admits(#[trigger] sorted@[i]));
                assert(forall|i: int|
                    0 <= i < right_half@.len() ==> sphere_admits(#[trigger] right_half@[i]));
            }
        }
        let left = Geometry::bvh_node(sorted, time_0, time_1);
        let right = Geometry::bvh_node(right_half, time_0, time_1);
        proof {
            if all_admits {
                lemma_child_box_admits(left, time_0 as int, time_1 as int);
                lemma_child_box_admits(right, time_0 as int, time_1 as int);
            }
        }
        let bl = left.bounding_box(time_0, time_1);
        let br = right.bounding_box(time_0, time_1);
        let bbox = union_boxes(bl, br);
        let node = Geometry::BVHNode { left: Box::new(left), right: Box::new(right), bbox, axis };
        proof {
            if all_nonnode {
                assert(leaves(node) == leaves(left) + leaves(right));
                vstd::seq_lib::lemma_multiset_commutative(leaves(left), leaves(right));
                vstd::seq_lib::lemma_multiset_commutative(s_pre.subrange(0, mid as int), s_pre.subrange(mid as int, s_pre.len() as int));
                assert(leaves(node).to_multiset() =~= colliders@.to_multiset()) by {
                    broadcast use vstd::multiset::group_multiset_axioms;

                };
            }
            if all_admits {
                let b = bbox->Some_0;
                lemma_union_admits(b, bl->Some_0, left);
                lemma_union_admits(b, br->Some_0, right);
                assert(covered(node));
                assert(bbox_spec(node, time_0 as int, time_1 as int) == bbox);
            }
        }
        node
    }
}

/// An optional box whose corners are inside the stored-box range.
pub open spec fn boxes_in_blim(a: Option<AABB>) -> bool {
    match a {
        Some(b) => vec_in_range(b.minimum, BLIM as int) && vec_in_range(b.maximum, BLIM as int),
        None => true,
    }
}

/// The union fold at spec level: componentwise min/max of whichever boxes
/// exist, clamped into the stored-box range.
pub open spec fn union_boxes_spec(a: Option<AABB>, b: Option<AABB>) -> Option<AABB> {
    let joined = match (a, b) {
        (Some(ba), Some(bb)) => Some(
            AABB {
                minimum: Vec3 {
                    x: if ba.minimum.x <= bb.minimum.x {
                        ba.minimum.x
                    } else {
                        bb.minimum.x
                    },
                    y: if ba.minimum.y <= bb.minimum.y {
                        ba.minimum.y
                    } else {
                        bb.minimum.y
                    },
                    z: if ba.minimum.z <= bb.minimum.z {
                        ba.minimum.z
                    } else {
                        bb.minimum.z
                    },
                },
                maximum: Vec3 {
                    x: if ba.maximum.x >= bb.maximum.x {
                        ba.maximum.x
                    } else {
                        bb.maximum.x
                    },
                    y: if ba.maximum.y >= bb.maximum.y {
                        ba.maximum.y
                    } else {
                        bb.maximum.y
                    },
                    z: if ba.maximum.z >= bb.maximum.z {
                        ba.maximum.z
                    } else {
                        bb.maximum.z
                    },
                },
            },
        ),
        (Some(ba), None) => Some(ba),
        (None, Some(bb)) => Some(bb),
        (None, None) => None,
    };
    match joined {
        None => None,
        Some(u) => Some(
            AABB {
                minimum: Vec3 {
                    x: clamp_box_spec(u.minimum.x as int) as i128,
                    y: clamp_box_spec(u.minimum.y as int) as i128,
                    z: clamp_box_spec(u.minimum.z as int) as i128,
                },
                maximum: Vec3 {
                    x: clamp_box_spec(u.maximum.x as int) as i128,
                    y: clamp_box_spec(u.maximum.y as int) as i128,
                    z: clamp_box_spec(u.maximum.z as int) as i128,
                },
            },
        ),
    }
}

/// Folds two optional boxes into the union, keeping whichever exists, and
/// clamps the corners into the stored-box range (a union of boxes already
/// inside that range is kept exactly and contains both).
fn union_boxes(a: Option<AABB>, b: Option<AABB>) -> (r: Option<AABB>)
    requires
        a matches Some(ba) ==> vec_in_range(ba.minimum, 274877906944) && vec_in_range(
            ba.maximum,
            274877906944,
        ),
        b matches Some(bb) ==> vec_in_range(bb.minimum, 274877906944) && vec_in_range(
            bb.maximum,
            274877906944,
        ),
    ensures
        r matches Some(u) ==> vec_in_range(u.minimum, BLIM as int) && vec_in_range(
            u.maximum,
            BLIM as int,
        ),
        r == union_boxes_spec(a, b),
        r is Some <==> (a is Some || b is Some),
        boxes_in_blim(a) && boxes_in_blim(b) ==> ((a matches Some(ba) ==> (r matches Some(u)
            && contains_box(u, ba))) && (b matches Some(bb) ==> (r matches Some(u)
            && contains_box(u, bb)))),
{
    let joined = match (a, b) {
        (Some(ba), Some(bb)) => Some(AABB::surrounding_box(ba, bb)),
        (Some(ba), None) => Some(ba),
        (None, Some(bb)) => Some(bb),
        (None, None) => None,
    };
    match joined {
        None => None,
        Some(u) => Some(
            AABB {
                minimum: Vec3 {
                    x: clamp_box(u.minimum.x),
                    y: clamp_box(u.minimum.y),
                    z: clamp_box(u.minimum.z),
                },
                maximum: Vec3 {
                    x: clamp_box(u.maximum.x),
                    y: clamp_box(u.maximum.y),
                    z: clamp_box(u.maximum.z),
                },
            },
        ),
    }
}

/// The scene box fold over the first `upto` objects: the outer `None`
/// means the fold has failed (some object had no box), otherwise the
/// accumulated union so far (`None` before the first object).
pub open spec fn scene_box_fold(objs: Seq<Geometry>, t0: int, t1: int, upto: int) -> Option<
    Option<AABB>,
>
    decreases upto,
{
    if upto <= 0 {
        Some(None)
    } else {
        match scene_box_fold(objs, t0, t1, upto - 1) {
            None => None,
            Some(cur) => match bbox_spec(objs[upto - 1], t0, t1) {
                None => None,
                Some(tb) => match cur {
                    None => Some(union_boxes_spec(Some(tb), None)),
                    Some(_c) => Some(union_boxes_spec(cur, Some(tb))),
                },
            },
        }
    }
}

/// Once the fold has failed it stays failed for every longer prefix.
proof fn lemma_scene_fold_dead(objs: Seq<Geometry>, t0: int, t1: int, from: int, upto: int)
    requires
        0 <= from <= upto,
        scene_box_fold(objs, t0, t1, from) is None,
    ensures
        scene_box_fold(objs, t0, t1, upto) is None,
    decreases upto - from,
{
    if from < upto {
        lemma_scene_fold_dead(objs, t0, t1, from + 1, upto);
    }
}

/// The scene: the top-level geometry list and the shared image atlas.
pub struct SceneColliders {
    pub objects: Vec<Geometry>,
    pub atlas: ImageTextureAtlas,
}

impl SceneColliders {
    /// Every object is within range, and every material fits the atlas.
    pub open spec fn wf(&self) -> bool {
        &&& self.atlas.wf()
        &&& forall|i: int|
            0 <= i < self.objects.len() ==> geom_in_range(#[trigger] self.objects[i])
        &&& forall|i: int|
            0 <= i < self.objects.len() ==> geom_mats_wf(#[trigger] self.objects[i], self.atlas)
    }

    pub fn new() -> (r: SceneColliders)
        ensures
            r.wf(),
            r.objects.len() == 0,
            r.atlas.images.len() == 0,
    {
        SceneColliders { objects: Vec::new(), atlas: ImageTextureAtlas::new() }
    }

    /// Adds a top-level object.
    pub fn add(&mut self, object: Geometry)
        requires
            old(self).wf(),
            geom_in_range(object),
            geom_mats_wf(object, old(self).atlas),
        ensures
            final(self).wf(),
            final(self).objects.len() == old(self).objects.len() + 1,
            final(self).objects[old(self).objects.len() as int] == object,
            final(self).atlas == old(self).atlas,
            forall|i: int|
                0 <= i < old(self).objects.len() ==> final(self).objects[i] == old(
                    self,
                ).objects[i],
    {
        self.objects.push(object);
    }

    /// Stores a decoded image in the atlas and returns the texture that
    /// samples it.
    pub fn load_image(&mut self, img: crate::texture::ImageData) -> (t: Texture)
        requires
            old(self).wf(),
            crate::texture::image_wf(img),
            old(self).objects.len() == 0,
        ensures
            final(self).wf(),
            final(self).objects == old(self).objects,
            t.texture_type matches TextureType::ImageTexture(_b, _w, _h, idx) && idx
                < final(self).atlas.images.len(),
            texture_wf(t, final(self).atlas),
    {
        let idx = self.atlas.load(img);
        Texture::image(&self.atlas, idx)
    }

    /// The nearest hit among the scene's objects: identical to scanning
    /// them in order with a shrinking far bound.
    pub fn intersect(&self, r: Ray, t_min: i128, t_max: i128) -> (res: Option<HitRecord>)
        requires
            self.wf(),
            ray_in_range(r),
            -WMAX <= t_min <= WMAX,
            -WMAX <= t_max <= WMAX,
        ensures
            (forall|k: int| 0 <= k < self.objects.len() ==> mirrored(#[trigger] self.objects[k]))
                ==> hit_matches(
                res,
                scan_seq_spec(self.objects@, r, t_min as int, t_max as int),
            ),
            res matches Some(rec) ==> hit_in_range(rec, t_min as int, t_max as int),
            res matches Some(rec) ==> material_wf(rec.material, self.atlas),
    {
        proof {
            assert(self.objects@.skip(0) =~= self.objects@);
        }
        let res = scan_objects(&self.objects, 0, r, t_min, t_max);
        proof {
            if res is Some {
                let rec = res->Some_0;
                let m = choose|m: Material|
                    #[trigger] same_material(m, rec.material) && exists|k: int|
                        0 <= k < self.objects.len() && mat_in(m, #[trigger] self.objects[k]);
                let k = choose|k: int|
                    0 <= k < self.objects.len() && mat_in(m, #[trigger] self.objects[k]);
                lemma_mat_in_wf(m, self.objects[k], self.atlas);
                crate::material::lemma_same_material_wf(m, rec.material, self.atlas);
            }
        }
        res
    }

    /// The union of the objects' boxes over the shutter interval, folded
    /// front to back exactly as `scene_box_fold` states; `None` when the
    /// scene is empty or some object is unbounded.
    pub fn bounding_box(&self, time_0: i128, time_1: i128) -> (res: Option<AABB>)
        requires
            self.wf(),
            -WMAX <= time_0 <= WMAX,
            -WMAX <= time_1 <= WMAX,
        ensures
            self.objects.len() == 0 ==> res is None,
            self.objects.len() > 0 ==> (match scene_box_fold(
                self.objects@,
                time_0 as int,
                time_1 as int,
                self.objects.len() as int,
            ) {
                None => res is None,
                Some(cur) => res == cur,
            }),
            res matches Some(b) ==> vec_in_range(b.minimum, BLIM as int) && vec_in_range(
                b.maximum,
                BLIM as int,
            ),
    {
        if self.objects.len() == 0 {
            return None;
        }
        let mut out_box: Option<AABB> = None;
        let mut first_box = true;
        let mut i: usize = 0;
        while i < self.objects.len()
            invariant
                self.wf(),
                -WMAX <= time_0 <= WMAX,
                -WMAX <= time_1 <= WMAX,
                i <= self.objects.len(),
                first_box == (i == 0),
                scene_box_fold(self.objects@, time_0 as int, time_1 as int, i as int) == Some(
                    out_box,
                ),
                out_box matches Some(b) ==> vec_in_range(b.minimum, BLIM as int) && vec_in_range(
                    b.maximum,
                    BLIM as int,
                ),
            decreases self.objects.len() - i,
        {
            let temp_box = self.objects[i].bounding_box(time_0, time_1);
            match temp_box {
                None => {
                    proof {
                        lemma_scene_fold_dead(
                            self.objects@,
                            time_0 as int,
                            time_1 as int,
                            i as int + 1,
                            self.objects.len() as int,
                        );
                    }
                    return None;
                },
                Some(tb) => {
                    out_box = if first_box {
                        union_boxes(Some(tb), None)
                    } else {
                        union_boxes(out_box, Some(tb))
                    };
                    first_box = false;
                },
            }
            i = i + 1;
        }
        out_box
    }
}

/// A ray starting strictly inside a sphere is never rejected at the
/// discriminant test: the quadratic always has real roots there (the
/// remaining rejection can only come from the root range checks).
pub proof fn lemma_inside_sphere_discriminant(center: Point3, radius: int, r: Ray)
    requires
        length_squared_spec(r.direction) >= 1,
        length_squared_spec(
            Vec3 {
                x: (r.origin.x - center.x) as i128,
                y: (r.origin.y - center.y) as i128,
                z: (r.origin.z - center.z) as i128,
            },
        ) < fx_mul_spec(radius, radius),
    ensures
        ({
            let oc = Vec3 {
                x: (r.origin.x - center.x) as i128,
                y: (r.origin.y - center.y) as i128,
                z: (r.origin.z - center.z) as i128,
            };
            let a = length_squared_spec(r.direction);
            let half_b = dot_spec(oc, r.direction);
            let c = length_squared_spec(oc) - fx_mul_spec(radius, radius);
            fx_mul_spec(half_b, half_b) - fx_mul_spec(a, c) >= 0
        }),
{
    let oc = Vec3 {
        x: (r.origin.x - center.x) as i128,
        y: (r.origin.y - center.y) as i128,
        z: (r.origin.z - center.z) as i128,
    };
    let a = length_squared_spec(r.direction);
    let half_b = dot_spec(oc, r.direction);
    let c = length_squared_spec(oc) - fx_mul_spec(radius, radius);
    assert(c < 0);
    assert(half_b * half_b >= 0) by (nonlinear_arith);
    lemma_tdiv_bounds(half_b * half_b, SCALE as int);
    assert(fx_mul_spec(half_b, half_b) >= 0);
    assert(a * c < 0) by (nonlinear_arith)
        requires
            a >= 1,
            c < 0,
    ;
    lemma_tdiv_bounds(a * c, SCALE as int);
    assert(fx_mul_spec(a, c) <= 0);
}

} // verus!
