//! Axis-aligned bounding boxes with the slab ray test.

use vstd::prelude::*;
use crate::fx::{
    SCALE, WMAX, fx_div_spec, fx_div, tdiv, lemma_tdiv_neg, lemma_tdiv_mono, lemma_tdiv_bounds,
    lemma_mul_bound,
};
use crate::vec3::{Vec3, Point3, vec_in_range};
use crate::ray::Ray;

verus! {

/// Bound on the ray parameters threaded through the slab test: a slab
/// boundary parameter is at most 2 * WMAX * SCALE in magnitude.
pub const TLIM: i128 = 36028797018963968;

#[derive(Clone, Copy, PartialEq, Eq, Structural, Debug)]
pub struct AABB {
    pub minimum: Point3,
    pub maximum: Point3,
}

/// The box's corners all lie inside twice the world coordinate range
/// (instance wrappers can push boxes past the raw world bound).
pub open spec fn aabb_in_range(b: AABB) -> bool {
    &&& vec_in_range(b.minimum, 2 * WMAX as int)
    &&& vec_in_range(b.maximum, 2 * WMAX as int)
}

/// The point lies inside the box, componentwise.
pub open spec fn contains_point(b: AABB, p: Point3) -> bool {
    &&& b.minimum.x <= p.x <= b.maximum.x
    &&& b.minimum.y <= p.y <= b.maximum.y
    &&& b.minimum.z <= p.z <= b.maximum.z
}

/// Every point of `inner` lies inside `outer`.
pub open spec fn contains_box(outer: AABB, inner: AABB) -> bool {
    &&& outer.minimum.x <= inner.minimum.x
    &&& outer.minimum.y <= inner.minimum.y
    &&& outer.minimum.z <= inner.minimum.z
    &&& inner.maximum.x <= outer.maximum.x
    &&& inner.maximum.y <= outer.maximum.y
    &&& inner.maximum.z <= outer.maximum.z
}

/// One axis of the slab test: the running parameter interval [tmin, tmax]
/// clamped to the slab's entry and exit parameters, or `None` when the
/// interval empties.  A zero direction component constrains nothing when the
/// origin lies between the slab planes and rejects otherwise (the role that
/// division toward infinity plays in the floating-point formulation).
pub open spec fn slab_axis_spec(minv: int, maxv: int, o: int, d: int, tmin: int, tmax: int) -> Option<
    (int, int),
> {
    if d == 0 {
        if o < minv || o > maxv {
            None
        } else if tmax <= tmin {
            None
        } else {
            Some((tmin, tmax))
        }
    } else {
        let t0 = fx_div_spec(minv - o, d);
        let t1 = fx_div_spec(maxv - o, d);
        let lo = if d < 0 {
            t1
        } else {
            t0
        };
        let hi = if d < 0 {
            t0
        } else {
            t1
        };
        let nmin = if lo > tmin {
            lo
        } else {
            tmin
        };
        let nmax = if hi < tmax {
            hi
        } else {
            tmax
        };
        if nmax <= nmin {
            None
        } else {
            Some((nmin, nmax))
        }
    }
}

/// The whole slab test: all three axes in order, folding the interval.
pub open spec fn slab_spec(b: AABB, r: Ray, tmin: int, tmax: int) -> bool {
    match slab_axis_spec(
        b.minimum.x as int,
        b.maximum.x as int,
        r.origin.x as int,
        r.direction.x as int,
        tmin,
        tmax,
    ) {
        None => false,
        Some((m1, x1)) => match slab_axis_spec(
            b.minimum.y as int,
            b.maximum.y as int,
            r.origin.y as int,
            r.direction.y as int,
            m1,
            x1,
        ) {
            None => false,
            Some((m2, x2)) => slab_axis_spec(
                b.minimum.z as int,
                b.maximum.z as int,
                r.origin.z as int,
                r.direction.z as int,
                m2,
                x2,
            ) is Some,
        },
    }
}

/// One exec axis of the slab test.
fn slab_axis(minv: i128, maxv: i128, o: i128, d: i128, tmin: i128, tmax: i128) -> (res: Option<
    (i128, i128),
>)
    requires
        -34359738368 <= minv <= 34359738368,
        -34359738368 <= maxv <= 34359738368,
        -137438953472 <= o <= 137438953472,
        -1073741824 <= d <= 1073741824,
        -TLIM <= tmin <= TLIM,
        -TLIM <= tmax <= TLIM,
    ensures
        res matches Some((a, b)) ==> slab_axis_spec(
            minv as int,
            maxv as int,
            o as int,
            d as int,
            tmin as int,
            tmax as int,
        ) == Some((a as int, b as int)) && -TLIM <= a <= TLIM && -TLIM <= b <= TLIM,
        res is None ==> slab_axis_spec(
            minv as int,
            maxv as int,
            o as int,
            d as int,
            tmin as int,
            tmax as int,
        ) is None,
{
    if d == 0 {
        if o < minv || o > maxv {
            return None;
        }
        if tmax <= tmin {
            return None;
        }
        return Some((tmin, tmax));
    }
    proof {
        let pd: int = if d >= 0 {
            d as int
        } else {
            -(d as int)
        };
        lemma_mul_bound(minv - o as int, SCALE as int, 171798691840, SCALE as int);
        lemma_mul_bound(maxv - o as int, SCALE as int, 171798691840, SCALE as int);
        assert(171798691840int * 65536int == 11258999068426240int);
        assert(11258999068426240int <= 11258999068426240int * pd) by (nonlinear_arith)
            requires
                pd >= 1,
        ;
        crate::fx::lemma_tdiv_div_bound((minv - o as int) * SCALE as int, pd, 11258999068426240);
        crate::fx::lemma_tdiv_div_bound((maxv - o as int) * SCALE as int, pd, 11258999068426240);
        lemma_tdiv_neg((minv - o as int) * SCALE as int, d as int);
        lemma_tdiv_neg((maxv - o as int) * SCALE as int, d as int);
    }
    let t0 = fx_div(minv - o, d);
    let t1 = fx_div(maxv - o, d);
    let lo = if d < 0 { t1 } else { t0 };
    let hi = if d < 0 { t0 } else { t1 };
    let nmin = if lo > tmin { lo } else { tmin };
    let nmax = if hi < tmax { hi } else { tmax };
    if nmax <= nmin {
        None
    } else {
        Some((nmin, nmax))
    }
}

impl AABB {
    pub fn new(a: Point3, b: Point3) -> (r: AABB)
        ensures
            r == (AABB { minimum: a, maximum: b }),
    {
        AABB { minimum: a, maximum: b }
    }

    /// The degenerate box at the origin, a seed for accumulation.
    pub fn empty() -> (r: AABB)
        ensures
            r.minimum == (Vec3 { x: 0i128, y: 0i128, z: 0i128 }),
            r.maximum == (Vec3 { x: 0i128, y: 0i128, z: 0i128 }),
    {
        AABB { minimum: Vec3::origin(), maximum: Vec3::origin() }
    }

    /// The componentwise union: the smallest box containing both inputs.
    pub fn surrounding_box(box0: AABB, box1: AABB) -> (r: AABB)
        ensures
            r.minimum.x == if box0.minimum.x <= box1.minimum.x {
                box0.minimum.x
            } else {
                box1.minimum.x
            },
            r.minimum.y == if box0.minimum.y <= box1.minimum.y {
                box0.minimum.y
            } else {
                box1.minimum.y
            },
            r.minimum.z == if box0.minimum.z <= box1.minimum.z {
                box0.minimum.z
            } else {
                box1.minimum.z
            },
            r.maximum.x == if box0.maximum.x >= box1.maximum.x {
                box0.maximum.x
            } else {
                box1.maximum.x
            },
            r.maximum.y == if box0.maximum.y >= box1.maximum.y {
                box0.maximum.y
            } else {
                box1.maximum.y
            },
            r.maximum.z == if box0.maximum.z >= box1.maximum.z {
                box0.maximum.z
            } else {
                box1.maximum.z
            },
            contains_box(r, box0),
            contains_box(r, box1),
    {
        let small = Point3 {
            x: crate::fx::fx_min(box0.minimum.x, box1.minimum.x),
            y: crate::fx::fx_min(box0.minimum.y, box1.minimum.y),
            z: crate::fx::fx_min(box0.minimum.z, box1.minimum.z),
        };
        let big = Point3 {
            x: crate::fx::fx_max(box0.maximum.x, box1.maximum.x),
            y: crate::fx::fx_max(box0.maximum.y, box1.maximum.y),
            z: crate::fx::fx_max(box0.maximum.z, box1.maximum.z),
        };
        AABB { minimum: small, maximum: big }
    }

    /// The slab ray test against this box on the interval [t_min, t_max].
    pub fn intersect(&self, r: Ray, t_min: i128, t_max: i128) -> (hit: bool)
        requires
            aabb_in_range(*self),
            vec_in_range(r.origin, 137438953472),
            vec_in_range(r.direction, 1073741824),
            -TLIM <= t_min <= TLIM,
            -TLIM <= t_max <= TLIM,
        ensures
            hit == slab_spec(*self, r, t_min as int, t_max as int),
    {
        let first = slab_axis(
            self.minimum.x,
            self.maximum.x,
            r.origin.x,
            r.direction.x,
            t_min,
            t_max,
        );
        match first {
            None => false,
            Some((m1, x1)) => {
                let second = slab_axis(
                    self.minimum.y,
                    self.maximum.y,
                    r.origin.y,
                    r.direction.y,
                    m1,
                    x1,
                );
                match second {
                    None => false,
                    Some((m2, x2)) => {
                        let third = slab_axis(
                            self.minimum.z,
                            self.maximum.z,
                            r.origin.z,
                            r.direction.z,
                            m2,
                            x2,
                        );
                        third.is_some()
                    },
                }
            },
        }
    }
}

/// The union of two boxes contains every corner of each: in particular both
/// extreme corners of each input, and with them every point of each input.
pub proof fn lemma_surrounding_box_contains(u: AABB, a: AABB, b: AABB)
    requires
        contains_box(u, a),
        contains_box(u, b),
    ensures
        contains_point(u, a.minimum) || a.minimum.x > a.maximum.x || a.minimum.y > a.maximum.y
            || a.minimum.z > a.maximum.z,
        a.minimum.x <= a.maximum.x && a.minimum.y <= a.maximum.y && a.minimum.z <= a.maximum.z
            ==> contains_point(u, a.minimum) && contains_point(u, a.maximum),
        b.minimum.x <= b.maximum.x && b.minimum.y <= b.maximum.y && b.minimum.z <= b.maximum.z
            ==> contains_point(u, b.minimum) && contains_point(u, b.maximum),
        forall|p: Point3| contains_point(a, p) ==> contains_point(u, p),
        forall|p: Point3| contains_point(b, p) ==> contains_point(u, p),
{
}

/// Widening the slab and the parameter interval can only keep an axis alive:
/// the surviving interval of the wider run contains that of the narrower run.
pub proof fn lemma_slab_axis_mono(
    minb: int,
    maxb: int,
    mins: int,
    maxs: int,
    o: int,
    d: int,
    tminb: int,
    tmaxb: int,
    tmins: int,
    tmaxs: int,
)
    requires
        minb <= mins,
        maxs <= maxb,
        tminb <= tmins,
        tmaxs <= tmaxb,
        slab_axis_spec(mins, maxs, o, d, tmins, tmaxs) is Some,
    ensures
        slab_axis_spec(minb, maxb, o, d, tminb, tmaxb) is Some,
        (slab_axis_spec(minb, maxb, o, d, tminb, tmaxb)->0).0 <= (slab_axis_spec(
            mins,
            maxs,
            o,
            d,
            tmins,
            tmaxs,
        )->0).0,
        (slab_axis_spec(mins, maxs, o, d, tmins, tmaxs)->0).1 <= (slab_axis_spec(
            minb,
            maxb,
            o,
            d,
            tminb,
            tmaxb,
        )->0).1,
{
    if d != 0 {
        let pd = if d >= 0 {
            d
        } else {
            -d
        };
        assert((minb - o) * SCALE as int <= (mins - o) * SCALE as int);
        assert((maxs - o) * SCALE as int <= (maxb - o) * SCALE as int);
        lemma_tdiv_mono((minb - o) * SCALE as int, (mins - o) * SCALE as int, pd);
        lemma_tdiv_mono((maxs - o) * SCALE as int, (maxb - o) * SCALE as int, pd);
        lemma_tdiv_neg((minb - o) * SCALE as int, d);
        lemma_tdiv_neg((mins - o) * SCALE as int, d);
        lemma_tdiv_neg((maxb - o) * SCALE as int, d);
        lemma_tdiv_neg((maxs - o) * SCALE as int, d);
    }
}

/// The whole slab test is monotone: a ray interval that survives a box
/// survives any enclosing box on any enclosing parameter interval.
pub proof fn lemma_slab_mono(big: AABB, small: AABB, r: Ray, tminb: int, tmaxb: int, tmins: int, tmaxs: int)
    requires
        contains_box(big, small),
        tminb <= tmins,
        tmaxs <= tmaxb,
        slab_spec(small, r, tmins, tmaxs),
    ensures
        slab_spec(big, r, tminb, tmaxb),
{
    let s1 = slab_axis_spec(
        small.minimum.x as int,
        small.maximum.x as int,
        r.origin.x as int,
        r.direction.x as int,
        tmins,
        tmaxs,
    );
    lemma_slab_axis_mono(
        big.minimum.x as int,
        big.maximum.x as int,
        small.minimum.x as int,
        small.maximum.x as int,
        r.origin.x as int,
        r.direction.x as int,
        tminb,
        tmaxb,
        tmins,
        tmaxs,
    );
    let b1 = slab_axis_spec(
        big.minimum.x as int,
        big.maximum.x as int,
        r.origin.x as int,
        r.direction.x as int,
        tminb,
        tmaxb,
    );
    lemma_slab_axis_mono(
        big.minimum.y as int,
        big.maximum.y as int,
        small.minimum.y as int,
        small.maximum.y as int,
        r.origin.y as int,
        r.direction.y as int,
        (b1->0).0,
        (b1->0).1,
        (s1->0).0,
        (s1->0).1,
    );
    let s2 = slab_axis_spec(
        small.minimum.y as int,
        small.maximum.y as int,
        r.origin.y as int,
        r.direction.y as int,
        (s1->0).0,
        (s1->0).1,
    );
    let b2 = slab_axis_spec(
        big.minimum.y as int,
        big.maximum.y as int,
        r.origin.y as int,
        r.direction.y as int,
        (b1->0).0,
        (b1->0).1,
    );
    lemma_slab_axis_mono(
        big.minimum.z as int,
        big.maximum.z as int,
        small.minimum.z as int,
        small.maximum.z as int,
        r.origin.z as int,
        r.direction.z as int,
        (b2->0).0,
        (b2->0).1,
        (s2->0).0,
        (s2->0).1,
    );
}

/// One axis of the slab test is symmetric under flipping the direction sign
/// together with negating and swapping the parameter interval.
pub proof fn lemma_slab_axis_flip(minv: int, maxv: int, o: int, d: int, tmin: int, tmax: int)
    ensures
        slab_axis_spec(minv, maxv, o, d, tmin, tmax) is Some <==> slab_axis_spec(
            minv,
            maxv,
            o,
            -d,
            -tmax,
            -tmin,
        ) is Some,
        slab_axis_spec(minv, maxv, o, d, tmin, tmax) matches Some((m, x)) ==> slab_axis_spec(
            minv,
            maxv,
            o,
            -d,
            -tmax,
            -tmin,
        ) == Some((-x, -m)),
{
    if d != 0 {
        lemma_tdiv_neg((minv - o) * SCALE as int, d);
        lemma_tdiv_neg((maxv - o) * SCALE as int, d);
    }
}

/// Flipping the ray direction while negating and swapping the parameter
/// range leaves the slab test's verdict unchanged.
pub proof fn lemma_slab_flip(b: AABB, r: Ray, flipped: Ray, tmin: int, tmax: int)
    requires
        flipped.origin == r.origin,
        flipped.direction.x == -r.direction.x,
        flipped.direction.y == -r.direction.y,
        flipped.direction.z == -r.direction.z,
    ensures
        slab_spec(b, r, tmin, tmax) == slab_spec(b, flipped, -tmax, -tmin),
{
    lemma_slab_axis_flip(
        b.minimum.x as int,
        b.maximum.x as int,
        r.origin.x as int,
        r.direction.x as int,
        tmin,
        tmax,
    );
    let s1 = slab_axis_spec(
        b.minimum.x as int,
        b.maximum.x as int,
        r.origin.x as int,
        r.direction.x as int,
        tmin,
        tmax,
    );
    if s1 is Some {
        lemma_slab_axis_flip(
            b.minimum.y as int,
            b.maximum.y as int,
            r.origin.y as int,
            r.direction.y as int,
            (s1->0).0,
            (s1->0).1,
        );
        let s2 = slab_axis_spec(
            b.minimum.y as int,
            b.maximum.y as int,
            r.origin.y as int,
            r.direction.y as int,
            (s1->0).0,
            (s1->0).1,
        );
        if s2 is Some {
            lemma_slab_axis_flip(
                b.minimum.z as int,
                b.maximum.z as int,
                r.origin.z as int,
                r.direction.z as int,
                (s2->0).0,
                (s2->0).1,
            );
        }
    }
}

} // verus!
