//! Three-component fixed-point vectors, used as points, displacements and
//! colors alike.

use vstd::prelude::*;
use vstd::math::abs;
use crate::fx::{
    SCALE, FX_LIM, tdiv, fx_mul_spec, fx_div_spec, fx_sqrt_spec, fx_mul, fx_div, fx_sqrt, fx_min,
    lemma_tdiv_neg, lemma_tdiv_bounds, lemma_mul_bound, lemma_fx_mul_val_bound,
};
use crate::utils::randrange;

verus! {

/// Cap on each component accepted by the componentwise operations.
pub const VLIM: i128 = 2305843009213693952;

/// Cap on each component accepted by the dot-product family (`dot`,
/// `length_squared`, `length`, `normalize`, `cross`), chosen so that the sum
/// of three products stays inside `i128` and inside the square-root domain.
pub const LLIM: i128 = 9007199254740992;

#[derive(Clone, Copy, PartialEq, Eq, Structural, Debug)]
pub struct Vec3 {
    pub x: i128,
    pub y: i128,
    pub z: i128,
}

pub type Rgb = Vec3;

pub type Point3 = Vec3;

/// All three components lie in [-b, b].
pub open spec fn vec_in_range(v: Vec3, b: int) -> bool {
    &&& -b <= v.x <= b
    &&& -b <= v.y <= b
    &&& -b <= v.z <= b
}

/// The fixed-point dot product.
pub open spec fn dot_spec(a: Vec3, b: Vec3) -> int {
    tdiv(a.x * b.x + a.y * b.y + a.z * b.z, SCALE as int)
}

/// The fixed-point squared length.
pub open spec fn length_squared_spec(v: Vec3) -> int {
    dot_spec(v, v)
}

/// The fixed-point length.
pub open spec fn length_spec(v: Vec3) -> int {
    fx_sqrt_spec(length_squared_spec(v))
}

pub open spec fn cross_x(a: Vec3, b: Vec3) -> int {
    fx_mul_spec(a.y as int, b.z as int) - fx_mul_spec(a.z as int, b.y as int)
}

pub open spec fn cross_y(a: Vec3, b: Vec3) -> int {
    fx_mul_spec(a.z as int, b.x as int) - fx_mul_spec(a.x as int, b.z as int)
}

pub open spec fn cross_z(a: Vec3, b: Vec3) -> int {
    fx_mul_spec(a.x as int, b.y as int) - fx_mul_spec(a.y as int, b.x as int)
}

/// The squared length of a bounded vector is nonnegative and bounded.
pub proof fn lemma_length_squared_bound(v: Vec3, c: int)
    requires
        c >= 0,
        vec_in_range(v, c),
    ensures
        0 <= length_squared_spec(v) <= 3 * c * c / SCALE as int + 1,
{
    assert(v.x * v.x >= 0) by (nonlinear_arith);
    assert(v.y * v.y >= 0) by (nonlinear_arith);
    assert(v.z * v.z >= 0) by (nonlinear_arith);
    lemma_tdiv_bounds(v.x * v.x + v.y * v.y + v.z * v.z, SCALE as int);
    lemma_dot_bound(v, v, c);
}

impl Vec3 {
    pub fn new(x: i128, y: i128, z: i128) -> (r: Vec3)
        ensures
            r == (Vec3 { x, y, z }),
    {
        Vec3 { x, y, z }
    }

    pub fn origin() -> (r: Vec3)
        ensures
            r == (Vec3 { x: 0i128, y: 0i128, z: 0i128 }),
    {
        Vec3 { x: 0, y: 0, z: 0 }
    }

    /// A vector whose components are independent uniform samples of [0, 1).
    pub fn random() -> (r: Vec3)
        ensures
            vec_in_range(r, SCALE as int),
            0 <= r.x < SCALE,
            0 <= r.y < SCALE,
            0 <= r.z < SCALE,
    {
        Vec3 { x: crate::utils::random(), y: crate::utils::random(), z: crate::utils::random() }
    }

    /// A vector whose components are independent uniform samples of [min, max).
    pub fn randrange(min: i128, max: i128) -> (r: Vec3)
        requires
            min < max,
        ensures
            min <= r.x < max,
            min <= r.y < max,
            min <= r.z < max,
    {
        Vec3 { x: randrange(min, max), y: randrange(min, max), z: randrange(min, max) }
    }

    pub fn set_to(&mut self, other: Vec3)
        ensures
            *final(self) == other,
    {
        self.x = other.x;
        self.y = other.y;
        self.z = other.z;
    }

    /// In fixed point the only vector within the customary near-zero
    /// tolerance is the zero vector itself.
    pub fn near_zero(&self) -> (r: bool)
        ensures
            r <==> *self == (Vec3 { x: 0i128, y: 0i128, z: 0i128 }),
    {
        self.x == 0 && self.y == 0 && self.z == 0
    }

    pub fn add(self, other: Vec3) -> (r: Vec3)
        requires
            vec_in_range(self, VLIM as int),
            vec_in_range(other, VLIM as int),
        ensures
            r.x == self.x + other.x,
            r.y == self.y + other.y,
            r.z == self.z + other.z,
    {
        Vec3 { x: self.x + other.x, y: self.y + other.y, z: self.z + other.z }
    }

    pub fn sub(self, other: Vec3) -> (r: Vec3)
        requires
            vec_in_range(self, VLIM as int),
            vec_in_range(other, VLIM as int),
        ensures
            r.x == self.x - other.x,
            r.y == self.y - other.y,
            r.z == self.z - other.z,
    {
        Vec3 { x: self.x - other.x, y: self.y - other.y, z: self.z - other.z }
    }

    pub fn neg(self) -> (r: Vec3)
        requires
            vec_in_range(self, VLIM as int),
        ensures
            r.x == -self.x,
            r.y == -self.y,
            r.z == -self.z,
    {
        Vec3 { x: -self.x, y: -self.y, z: -self.z }
    }

    /// Componentwise scaling by a fixed-point scalar.
    pub fn scale(self, k: i128) -> (r: Vec3)
        requires
            vec_in_range(self, FX_LIM as int),
            -FX_LIM <= k <= FX_LIM,
        ensures
            r.x == fx_mul_spec(self.x as int, k as int),
            r.y == fx_mul_spec(self.y as int, k as int),
            r.z == fx_mul_spec(self.z as int, k as int),
            abs(r.x as int) <= abs(self.x as int) * abs(k as int),
            abs(r.y as int) <= abs(self.y as int) * abs(k as int),
            abs(r.z as int) <= abs(self.z as int) * abs(k as int),
    {
        Vec3 { x: fx_mul(self.x, k), y: fx_mul(self.y, k), z: fx_mul(self.z, k) }
    }

    /// Componentwise product.
    pub fn mul(self, other: Vec3) -> (r: Vec3)
        requires
            vec_in_range(self, FX_LIM as int),
            vec_in_range(other, FX_LIM as int),
        ensures
            r.x == fx_mul_spec(self.x as int, other.x as int),
            r.y == fx_mul_spec(self.y as int, other.y as int),
            r.z == fx_mul_spec(self.z as int, other.z as int),
    {
        Vec3 { x: fx_mul(self.x, other.x), y: fx_mul(self.y, other.y), z: fx_mul(self.z, other.z) }
    }

    /// Componentwise division by a fixed-point scalar.
    pub fn div_scalar(self, k: i128) -> (r: Vec3)
        requires
            k != 0,
            vec_in_range(self, FX_LIM as int),
            -FX_LIM < k < FX_LIM,
        ensures
            r.x == fx_div_spec(self.x as int, k as int),
            r.y == fx_div_spec(self.y as int, k as int),
            r.z == fx_div_spec(self.z as int, k as int),
    {
        Vec3 { x: fx_div(self.x, k), y: fx_div(self.y, k), z: fx_div(self.z, k) }
    }

    pub fn length_squared(&self) -> (r: i128)
        requires
            vec_in_range(*self, LLIM as int),
        ensures
            r == length_squared_spec(*self),
            0 <= r <= 3 * LLIM * LLIM,
    {
        proof {
            lemma_mul_bound(self.x as int, self.x as int, LLIM as int, LLIM as int);
            lemma_mul_bound(self.y as int, self.y as int, LLIM as int, LLIM as int);
            lemma_mul_bound(self.z as int, self.z as int, LLIM as int, LLIM as int);
            assert(self.x * self.x >= 0) by (nonlinear_arith);
            assert(self.y * self.y >= 0) by (nonlinear_arith);
            assert(self.z * self.z >= 0) by (nonlinear_arith);
            lemma_tdiv_bounds(
                self.x * self.x + self.y * self.y + self.z * self.z,
                SCALE as int,
            );
        }
        let s: i128 = self.x * self.x + self.y * self.y + self.z * self.z;
        crate::fx::tdiv_i(s, SCALE)
    }

    pub fn length(&self) -> (r: i128)
        requires
            vec_in_range(*self, LLIM as int),
        ensures
            r == length_spec(*self),
            0 <= r,
            r * r <= length_squared_spec(*self) * SCALE,
            length_squared_spec(*self) * SCALE < (r + 1) * (r + 1),
    {
        let ls: i128 = self.length_squared();
        fx_sqrt(ls)
    }

    /// The vector rescaled to unit length (within fixed-point rounding).
    pub fn normalize(&self) -> (r: Vec3)
        requires
            vec_in_range(*self, LLIM as int),
            length_squared_spec(*self) > 0,
        ensures
            r.x == fx_div_spec(self.x as int, length_spec(*self)),
            r.y == fx_div_spec(self.y as int, length_spec(*self)),
            r.z == fx_div_spec(self.z as int, length_spec(*self)),
    {
        let len: i128 = self.length();
        proof {
            let ls = length_squared_spec(*self);
            lemma_length_squared_bound(*self, LLIM as int);
            if len == 0 {
                assert(ls * SCALE >= SCALE) by (nonlinear_arith)
                    requires
                        ls >= 1,
                ;
                assert(false);
            }
            assert(len < FX_LIM) by (nonlinear_arith)
                requires
                    len >= 0,
                    len * len <= ls * SCALE as int,
                    0 <= ls <= 3 * LLIM as int * LLIM as int / SCALE as int + 1,
            ;
        }
        self.div_scalar(len)
    }

    pub fn dot(&self, other: Vec3) -> (r: i128)
        requires
            vec_in_range(*self, LLIM as int),
            vec_in_range(other, LLIM as int),
        ensures
            r == dot_spec(*self, other),
            -3 * LLIM * LLIM <= r <= 3 * LLIM * LLIM,
    {
        proof {
            lemma_mul_bound(self.x as int, other.x as int, LLIM as int, LLIM as int);
            lemma_mul_bound(self.y as int, other.y as int, LLIM as int, LLIM as int);
            lemma_mul_bound(self.z as int, other.z as int, LLIM as int, LLIM as int);
            lemma_tdiv_bounds(
                self.x * other.x + self.y * other.y + self.z * other.z,
                SCALE as int,
            );
        }
        let s: i128 = self.x * other.x + self.y * other.y + self.z * other.z;
        crate::fx::tdiv_i(s, SCALE)
    }

    pub fn cross(&self, other: Vec3) -> (r: Vec3)
        requires
            vec_in_range(*self, LLIM as int),
            vec_in_range(other, LLIM as int),
        ensures
            r.x == cross_x(*self, other),
            r.y == cross_y(*self, other),
            r.z == cross_z(*self, other),
    {
        proof {
            crate::fx::lemma_abs_mul_bound(self.y as int, other.z as int, LLIM as int, LLIM as int);
            crate::fx::lemma_abs_mul_bound(self.z as int, other.y as int, LLIM as int, LLIM as int);
            crate::fx::lemma_abs_mul_bound(self.z as int, other.x as int, LLIM as int, LLIM as int);
            crate::fx::lemma_abs_mul_bound(self.x as int, other.z as int, LLIM as int, LLIM as int);
            crate::fx::lemma_abs_mul_bound(self.x as int, other.y as int, LLIM as int, LLIM as int);
            crate::fx::lemma_abs_mul_bound(self.y as int, other.x as int, LLIM as int, LLIM as int);
        }
        Vec3 {
            x: fx_mul(self.y, other.z) - fx_mul(self.z, other.y),
            y: fx_mul(self.z, other.x) - fx_mul(self.x, other.z),
            z: fx_mul(self.x, other.y) - fx_mul(self.y, other.x),
        }
    }
}

/// A vector sampled uniformly from the interior of the unit ball, never the
/// zero vector (zero-length samples are rejected so that normalization stays
/// defined).  Falls back to a fixed interior vector if rejection sampling
/// runs out of attempts.
pub fn random_in_unit_sphere() -> (r: Vec3)
    ensures
        vec_in_range(r, SCALE as int),
        0 < length_squared_spec(r) < SCALE,
{
    let mut attempts: u32 = 64;
    while attempts > 0
        invariant
            true,
        decreases attempts,
    {
        let p = Vec3::randrange(-SCALE, SCALE);
        let ls = p.length_squared();
        if 0 < ls && ls < SCALE {
            return p;
        }
        attempts = attempts - 1;
    }
    let q = Vec3 { x: 32768, y: 0, z: 0 };
    proof {
        assert(q.x * q.x + q.y * q.y + q.z * q.z == 1073741824) by (nonlinear_arith)
            requires
                q.x == 32768,
                q.y == 0,
                q.z == 0,
        ;
        assert(length_squared_spec(q) == tdiv(1073741824, 65536));
        assert(1073741824int / 65536int == 16384);
    }
    q
}

/// The normalization of a nonzero sample of the unit ball: a vector of unit
/// length within rounding, in a uniformly random direction.
pub fn random_unit_vec3() -> (r: Vec3)
    ensures
        exists|p: Vec3|
            {
                &&& vec_in_range(p, SCALE as int)
                &&& 0 < length_squared_spec(p) < SCALE
                &&& r.x == fx_div_spec(p.x as int, length_spec(p))
                &&& r.y == fx_div_spec(p.y as int, length_spec(p))
                &&& r.z == fx_div_spec(p.z as int, length_spec(p))
            },
{
    let p = random_in_unit_sphere();
    let n = p.normalize();
    proof {
        assert(vec_in_range(p, SCALE as int) && 0 < length_squared_spec(p) < SCALE && n.x
            == fx_div_spec(p.x as int, length_spec(p)) && n.y == fx_div_spec(
            p.y as int,
            length_spec(p),
        ) && n.z == fx_div_spec(p.z as int, length_spec(p)));
    }
    n
}

/// A unit-ish vector: `v` normalized when it has positive squared length,
/// the +z axis otherwise.
pub open spec fn unit_or_default_spec(v: Vec3) -> Vec3 {
    if length_squared_spec(v) > 0 {
        Vec3 {
            x: fx_div_spec(v.x as int, length_spec(v)) as i128,
            y: fx_div_spec(v.y as int, length_spec(v)) as i128,
            z: fx_div_spec(v.z as int, length_spec(v)) as i128,
        }
    } else {
        Vec3 { x: 0, y: 0, z: SCALE }
    }
}

/// Normalizes a vector, falling back to the +z axis for degenerate input so
/// that callers never divide by zero.
pub fn unit_or_default(v: Vec3) -> (r: Vec3)
    requires
        vec_in_range(v, LLIM as int),
    ensures
        r == unit_or_default_spec(v),
        vec_in_range(r, 2 * SCALE as int),
{
    proof {
        lemma_normalize_small(v);
    }
    let ls = v.length_squared();
    if ls > 0 {
        let n = v.normalize();
        n
    } else {
        Vec3 { x: 0, y: 0, z: SCALE }
    }
}

/// A normalized vector's components are at most about one: each is within
/// two units in fixed point.
pub proof fn lemma_normalize_small(v: Vec3)
    requires
        vec_in_range(v, LLIM as int),
    ensures
        vec_in_range(unit_or_default_spec(v), 2 * SCALE as int),
{
    let s = SCALE as int;
    if length_squared_spec(v) > 0 {
        let ls = length_squared_spec(v);
        let len = length_spec(v);
        lemma_length_squared_bound(v, LLIM as int);
        crate::fx::lemma_sqrt_exists(ls * s);
        assert(len >= 256) by (nonlinear_arith)
            requires
                len >= 0,
                ls >= 1,
                ls * s < (len + 1) * (len + 1),
                s == 65536,
        ;
        lemma_normalize_comp_small(v.x as int, v.y as int, v.z as int, ls, len);
        lemma_normalize_comp_small(v.y as int, v.x as int, v.z as int, ls, len);
        lemma_normalize_comp_small(v.z as int, v.x as int, v.y as int, ls, len);
    }
}

/// One component of a vector is at most 256 more than the vector's
/// fixed-point length, so dividing by the length yields at most about one.
proof fn lemma_normalize_comp_small(a: int, b: int, c: int, ls: int, len: int)
    requires
        ls == tdiv(a * a + b * b + c * c, SCALE as int),
        ls >= 1,
        len >= 256,
        len * len <= ls * SCALE < (len + 1) * (len + 1),
    ensures
        -(2 * SCALE as int * len) <= a * SCALE as int <= 2 * SCALE as int * len,
        -(2 * SCALE as int) <= tdiv(a * SCALE as int, len) <= 2 * SCALE as int,
{
    let s = SCALE as int;
    assert(b * b >= 0 && c * c >= 0 && a * a >= 0) by (nonlinear_arith);
    assert(ls * s > a * a + b * b + c * c - s) by {
        assert(((a * a + b * b + c * c) / s) * s > a * a + b * b + c * c - s) by (nonlinear_arith)
            requires
                a * a + b * b + c * c >= 0,
                s >= 1,
        ;
    };
    assert(a * a < (len + 1) * (len + 1) + s);
    assert(-(2 * len) <= a <= 2 * len) by (nonlinear_arith)
        requires
            a * a < (len + 1) * (len + 1) + 65536,
            len >= 256,
            s == 65536,
    ;
    assert(-((2 * s) * len) <= a * s <= (2 * s) * len) by (nonlinear_arith)
        requires
            -(2 * len) <= a <= 2 * len,
            s >= 1,
    ;
    crate::fx::lemma_tdiv_div_bound(a * s, len, 2 * s);
}

/// A sample of the unit ball, flipped if needed so that it points into the
/// hemisphere of the given normal (or along its boundary plane).
pub fn random_in_hemisphere(normal: Vec3) -> (r: Vec3)
    requires
        vec_in_range(normal, LLIM as int),
    ensures
        vec_in_range(r, SCALE as int),
        0 < length_squared_spec(r) < SCALE,
        dot_spec(r, normal) >= 0,
{
    let in_unit_sphere = random_in_unit_sphere();
    let d = in_unit_sphere.dot(normal);
    if d > 0 {
        in_unit_sphere
    } else {
        let f = in_unit_sphere.neg();
        proof {
            lemma_tdiv_neg(
                in_unit_sphere.x * normal.x + in_unit_sphere.y * normal.y + in_unit_sphere.z
                    * normal.z,
                SCALE as int,
            );
            assert(f.x * normal.x == -(in_unit_sphere.x * normal.x)) by (nonlinear_arith)
                requires
                    f.x == -in_unit_sphere.x,
            ;
            assert(f.y * normal.y == -(in_unit_sphere.y * normal.y)) by (nonlinear_arith)
                requires
                    f.y == -in_unit_sphere.y,
            ;
            assert(f.z * normal.z == -(in_unit_sphere.z * normal.z)) by (nonlinear_arith)
                requires
                    f.z == -in_unit_sphere.z,
            ;
            assert(f.x * f.x == in_unit_sphere.x * in_unit_sphere.x) by (nonlinear_arith)
                requires
                    f.x == -in_unit_sphere.x,
            ;
            assert(f.y * f.y == in_unit_sphere.y * in_unit_sphere.y) by (nonlinear_arith)
                requires
                    f.y == -in_unit_sphere.y,
            ;
            assert(f.z * f.z == in_unit_sphere.z * in_unit_sphere.z) by (nonlinear_arith)
                requires
                    f.z == -in_unit_sphere.z,
            ;
        }
        f
    }
}

/// A sample of the open unit disk in the xy-plane, never the zero vector.
/// Falls back to a fixed interior vector if rejection sampling runs out of
/// attempts.
pub fn random_in_unit_disk() -> (r: Vec3)
    ensures
        vec_in_range(r, SCALE as int),
        0 < length_squared_spec(r) < SCALE,
        r.z == 0,
{
    let mut attempts: u32 = 64;
    while attempts > 0
        decreases attempts,
    {
        let p = Vec3 { x: randrange(-SCALE, SCALE), y: randrange(-SCALE, SCALE), z: 0 };
        let ls = p.length_squared();
        if 0 < ls && ls < SCALE {
            return p;
        }
        attempts = attempts - 1;
    }
    let q = Vec3 { x: 32768, y: 0, z: 0 };
    proof {
        assert(q.x * q.x + q.y * q.y + q.z * q.z == 1073741824) by (nonlinear_arith)
            requires
                q.x == 32768,
                q.y == 0,
                q.z == 0,
        ;
        assert(length_squared_spec(q) == tdiv(1073741824, 65536));
        assert(1073741824int / 65536int == 16384);
    }
    q
}

/// Working bound on the vectors handed to `reflect` and `refract`: a few
/// units, plenty for unit directions and normals.
pub const RLIM: i128 = 655360;

/// The mirror image of `v` about the plane normal to `n`.
pub open spec fn reflect_spec(v: Vec3, n: Vec3) -> (int, int, int) {
    let d = dot_spec(v, n);
    (
        v.x - fx_mul_spec(fx_mul_spec(n.x as int, 2 * SCALE as int), d),
        v.y - fx_mul_spec(fx_mul_spec(n.y as int, 2 * SCALE as int), d),
        v.z - fx_mul_spec(fx_mul_spec(n.z as int, 2 * SCALE as int), d),
    )
}

/// Bound on the dot product of vectors with different componentwise caps.
pub proof fn lemma_dot_bound2(a: Vec3, b: Vec3, ca: int, cb: int)
    requires
        ca >= 0,
        cb >= 0,
        vec_in_range(a, ca),
        vec_in_range(b, cb),
    ensures
        -(3 * ca * cb / SCALE as int + 1) <= dot_spec(a, b) <= 3 * ca * cb / SCALE as int + 1,
{
    lemma_mul_bound(a.x as int, b.x as int, ca, cb);
    lemma_mul_bound(a.y as int, b.y as int, ca, cb);
    lemma_mul_bound(a.z as int, b.z as int, ca, cb);
    assert(3 * (ca * cb) <= (3 * ca * cb / SCALE as int + 1) * SCALE as int) by (nonlinear_arith)
        requires
            ca >= 0,
            cb >= 0,
    ;
    crate::fx::lemma_tdiv_div_bound(
        a.x * b.x + a.y * b.y + a.z * b.z,
        SCALE as int,
        3 * ca * cb / SCALE as int + 1,
    );
}

/// Bound on the dot product of two `RLIM`-bounded vectors.
pub proof fn lemma_dot_bound(a: Vec3, b: Vec3, c: int)
    requires
        c >= 0,
        vec_in_range(a, c),
        vec_in_range(b, c),
    ensures
        -(3 * c * c / SCALE as int + 1) <= dot_spec(a, b) <= 3 * c * c / SCALE as int + 1,
{
    lemma_mul_bound(a.x as int, b.x as int, c, c);
    lemma_mul_bound(a.y as int, b.y as int, c, c);
    lemma_mul_bound(a.z as int, b.z as int, c, c);
    assert(3 * (c * c) <= (3 * c * c / SCALE as int + 1) * SCALE as int) by (nonlinear_arith)
        requires
            c >= 0,
    ;
    crate::fx::lemma_tdiv_div_bound(
        a.x * b.x + a.y * b.y + a.z * b.z,
        SCALE as int,
        3 * c * c / SCALE as int + 1,
    );
}

/// Reflects `v` about the normal `n`.
pub fn reflect(v: Vec3, n: Vec3) -> (r: Vec3)
    requires
        vec_in_range(v, RLIM as int),
        vec_in_range(n, RLIM as int),
    ensures
        r.x == reflect_spec(v, n).0,
        r.y == reflect_spec(v, n).1,
        r.z == reflect_spec(v, n).2,
        vec_in_range(r, LLIM as int),
{
    let d = v.dot(n);
    proof {
        lemma_dot_bound(v, n, RLIM as int);
        lemma_fx_mul_val_bound(n.x as int, 2 * SCALE as int, RLIM as int, 2 * SCALE as int);
        lemma_fx_mul_val_bound(n.y as int, 2 * SCALE as int, RLIM as int, 2 * SCALE as int);
        lemma_fx_mul_val_bound(n.z as int, 2 * SCALE as int, RLIM as int, 2 * SCALE as int);
    }
    let n2 = n.scale(2 * SCALE);
    proof {
        let db: int = 3 * RLIM as int * RLIM as int / SCALE as int + 1;
        let nb: int = RLIM as int * (2 * SCALE as int) / SCALE as int + 1;
        lemma_fx_mul_val_bound(n2.x as int, d as int, nb, db);
        lemma_fx_mul_val_bound(n2.y as int, d as int, nb, db);
        lemma_fx_mul_val_bound(n2.z as int, d as int, nb, db);
    }
    let s = n2.scale(d);
    v.sub(s)
}

/// The incoming cosine used by `refract`: -min(dot(uv, n), 1).
pub open spec fn refract_cos(uv: Vec3, n: Vec3) -> int {
    -(if dot_spec(uv, n) <= SCALE as int {
        dot_spec(uv, n)
    } else {
        SCALE as int
    })
}

/// The component of the refracted ray perpendicular to the normal:
/// (uv + n * cos) * ratio, per component.
pub open spec fn refract_perp(uv: Vec3, n: Vec3, ratio: int) -> (int, int, int) {
    let c = refract_cos(uv, n);
    (
        fx_mul_spec(uv.x + fx_mul_spec(n.x as int, c), ratio),
        fx_mul_spec(uv.y + fx_mul_spec(n.y as int, c), ratio),
        fx_mul_spec(uv.z + fx_mul_spec(n.z as int, c), ratio),
    )
}

/// The scale of the parallel component: sqrt(|1 - |perp|^2|).
pub open spec fn refract_par_k(uv: Vec3, n: Vec3, ratio: int) -> int {
    let p = refract_perp(uv, n, ratio);
    let pls = tdiv(p.0 * p.0 + p.1 * p.1 + p.2 * p.2, SCALE as int);
    fx_sqrt_spec(abs(SCALE as int - pls) as int)
}

/// The refracted direction, as computed by `refract`.
pub open spec fn refract_spec(uv: Vec3, n: Vec3, ratio: int) -> (int, int, int) {
    let p = refract_perp(uv, n, ratio);
    let k = refract_par_k(uv, n, ratio);
    (
        p.0 + fx_mul_spec(n.x as int, -k),
        p.1 + fx_mul_spec(n.y as int, -k),
        p.2 + fx_mul_spec(n.z as int, -k),
    )
}

/// Refracts the unit direction `uv` at a surface with normal `n` and
/// refraction ratio `etai_over_etat`, by Snell's law in fixed point.
pub fn refract(uv: Vec3, n: Vec3, etai_over_etat: i128) -> (r: Vec3)
    requires
        vec_in_range(uv, RLIM as int),
        vec_in_range(n, RLIM as int),
        0 <= etai_over_etat <= 16 * SCALE,
    ensures
        r.x == refract_spec(uv, n, etai_over_etat as int).0,
        r.y == refract_spec(uv, n, etai_over_etat as int).1,
        r.z == refract_spec(uv, n, etai_over_etat as int).2,
        vec_in_range(r, LLIM as int),
{
    let d = uv.dot(n);
    proof {
        lemma_dot_bound(uv, n, 655360);
        assert(-19660801 <= d <= 19660801);
    }
    let cos_theta: i128 = -fx_min(d, SCALE);
    proof {
        assert(cos_theta == refract_cos(uv, n));
        lemma_fx_mul_val_bound(n.x as int, cos_theta as int, 655360, 19660801);
        lemma_fx_mul_val_bound(n.y as int, cos_theta as int, 655360, 19660801);
        lemma_fx_mul_val_bound(n.z as int, cos_theta as int, 655360, 19660801);
        assert(655360int * 19660801int / 65536int + 1 == 196608011);
    }
    let nc = n.scale(cos_theta);
    let base = uv.add(nc);
    proof {
        assert(vec_in_range(base, 197263371));
        lemma_fx_mul_val_bound(base.x as int, etai_over_etat as int, 197263371, 1048576);
        lemma_fx_mul_val_bound(base.y as int, etai_over_etat as int, 197263371, 1048576);
        lemma_fx_mul_val_bound(base.z as int, etai_over_etat as int, 197263371, 1048576);
        assert(197263371int * 1048576int / 65536int + 1 == 3156213937);
    }
    let r_out_perp = base.scale(etai_over_etat);
    proof {
        assert(vec_in_range(r_out_perp, 3156213937));
        lemma_dot_bound(r_out_perp, r_out_perp, 3156213937);
        assert(3int * 3156213937int * 3156213937int / 65536int + 1
            <= 456009815190722int);
    }
    let perp_ls = r_out_perp.length_squared();
    let k = fx_sqrt(crate::fx::fx_abs(SCALE - perp_ls));
    proof {
        assert(r_out_perp.x == refract_perp(uv, n, etai_over_etat as int).0);
        assert(r_out_perp.y == refract_perp(uv, n, etai_over_etat as int).1);
        assert(r_out_perp.z == refract_perp(uv, n, etai_over_etat as int).2);
        assert(k == refract_par_k(uv, n, etai_over_etat as int));
        let kk = k as int;
        assert(kk >= 0);
        assert(kk * kk <= (65536 + 456009815190722) * 65536);
        assert(kk <= 5466722899) by (nonlinear_arith)
            requires
                kk >= 0,
                kk * kk <= (65536 + 456009815190722) * 65536,
        ;
        lemma_fx_mul_val_bound(n.x as int, -kk, 655360, 5466722899);
        lemma_fx_mul_val_bound(n.y as int, -kk, 655360, 5466722899);
        lemma_fx_mul_val_bound(n.z as int, -kk, 655360, 5466722899);
        assert(655360int * 5466722899int / 65536int + 1 == 54667228991);
    }
    let r_out_parallel = n.scale(-k);
    r_out_perp.add(r_out_parallel)
}

/// At normal incidence with matched indices the refracted direction is the
/// incoming direction, unchanged: with `uv` opposite an exactly unit normal
/// and a refraction ratio of one, `refract` returns `uv`.
pub proof fn lemma_refract_identity(uv: Vec3, n: Vec3)
    requires
        vec_in_range(n, RLIM as int),
        uv.x == -n.x,
        uv.y == -n.y,
        uv.z == -n.z,
        n.x * n.x + n.y * n.y + n.z * n.z == SCALE as int * SCALE as int,
    ensures
        refract_spec(uv, n, SCALE as int).0 == uv.x,
        refract_spec(uv, n, SCALE as int).1 == uv.y,
        refract_spec(uv, n, SCALE as int).2 == uv.z,
{
    let s = SCALE as int;
    assert(uv.x * n.x == -(n.x * n.x)) by (nonlinear_arith)
        requires
            uv.x == -n.x,
    ;
    assert(uv.y * n.y == -(n.y * n.y)) by (nonlinear_arith)
        requires
            uv.y == -n.y,
    ;
    assert(uv.z * n.z == -(n.z * n.z)) by (nonlinear_arith)
        requires
            uv.z == -n.z,
    ;
    lemma_tdiv_neg(n.x * n.x + n.y * n.y + n.z * n.z, s);
    assert(dot_spec(uv, n) == -tdiv(s * s, s));
    assert(s == 65536);
    assert(65536int * 65536int == 4294967296int);
    assert(4294967296int / 65536int == 65536int);
    assert(dot_spec(uv, n) == -s);
    assert(refract_cos(uv, n) == s);
    assert(forall|a: int| -RLIM <= a <= RLIM ==> #[trigger] fx_mul_spec(a, s) == a) by {
        assert forall|a: int| -RLIM <= a <= RLIM implies #[trigger] fx_mul_spec(a, s) == a by {
            lemma_tdiv_neg(a * s, s);
            if a >= 0 {
                assert((a * s) / s == a) by (nonlinear_arith)
                    requires
                        a >= 0,
                        s >= 1,
                ;
            } else {
                assert(((-a) * s) / s == -a) by (nonlinear_arith)
                    requires
                        -a >= 0,
                        s >= 1,
                ;
                assert(-(a * s) == (-a) * s) by (nonlinear_arith);
            }
        };
    };
    assert(fx_mul_spec(n.x as int, s) == n.x);
    assert(fx_mul_spec(n.y as int, s) == n.y);
    assert(fx_mul_spec(n.z as int, s) == n.z);
    assert(uv.x + n.x == 0 && uv.y + n.y == 0 && uv.z + n.z == 0);
    assert(fx_mul_spec(0, s) == 0);
    let p = refract_perp(uv, n, s);
    assert(p.0 == 0 && p.1 == 0 && p.2 == 0);
    assert(tdiv(0, s) == 0);
    assert(p.0 * p.0 == 0) by (nonlinear_arith)
        requires
            p.0 == 0,
    ;
    assert(p.1 * p.1 == 0) by (nonlinear_arith)
        requires
            p.1 == 0,
    ;
    assert(p.2 * p.2 == 0) by (nonlinear_arith)
        requires
            p.2 == 0,
    ;
    assert(tdiv(p.0 * p.0 + p.1 * p.1 + p.2 * p.2, s) == 0);
    assert(abs(s - 0) == s);
    assert(refract_par_k(uv, n, s) == fx_sqrt_spec(s));
    crate::fx::lemma_sqrt_floor_exists(s * s, s);
    assert(refract_par_k(uv, n, s) == s);
    assert(fx_mul_spec(n.x as int, -s) == -n.x) by {
        lemma_tdiv_neg(n.x * s, s);
        assert(n.x * -s == -(n.x * s)) by (nonlinear_arith);
    };
    assert(fx_mul_spec(n.y as int, -s) == -n.y) by {
        lemma_tdiv_neg(n.y * s, s);
        assert(n.y * -s == -(n.y * s)) by (nonlinear_arith);
    };
    assert(fx_mul_spec(n.z as int, -s) == -n.z) by {
        lemma_tdiv_neg(n.z * s, s);
        assert(n.z * -s == -(n.z * s)) by (nonlinear_arith);
    };
}

} // verus!
