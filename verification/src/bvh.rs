//! The BVH correctness law: over spheres, traversal through a
//! well-covered tree reports a hit exactly when a linear scan of the same
//! spheres does, at the same nearest parameter.

use vstd::prelude::*;
use crate::fx::{SCALE, WMAX, tdiv, fx_div_spec, fx_sqrt_spec, lemma_tdiv_mono, lemma_sqrt_exists};
use crate::vec3::Vec3;
use crate::ray::Ray;
use crate::aabb::{AABB, slab_spec, lemma_slab_mono, contains_box};
use crate::collider::{
    Geometry, HitInfo, hit_spec, scan_seq_spec, sphere_root_spec, sphere_hit_spec, ray_in_range,
    sphere_tree, covered, box_admits, leaves,
};

verus! {

/// The size of a tree, for termination of the mutual induction.
pub open spec fn tree_rank(g: Geometry) -> nat
    decreases g,
{
    match g {
        Geometry::BVHNode { left, right, .. } => 1 + tree_rank(*left) + tree_rank(*right),
        _ => 1,
    }
}

proof fn lemma_tree_rank_pos(g: Geometry)
    ensures
        tree_rank(g) >= 1,
{
    match g {
        Geometry::BVHNode { left, right, .. } => {},
        _ => {},
    }
}

/// Some sphere at index `i` hits at parameter `t` on the given range.
pub open spec fn candidate(s: Seq<Geometry>, r: Ray, tmin: int, tmax: int, t: int) -> bool {
    exists|i: int|
        0 <= i < s.len() && ((#[trigger] hit_spec(s[i], r, tmin, tmax)) matches Some(h) && h.t
            == t)
}

/// The root selection of a sphere is coherent under shrinking the far
/// bound: a selected root at or below the new bound is kept unchanged, one
/// beyond it disappears, and a miss stays a miss.  Selected roots lie in
/// the queried range.
pub proof fn lemma_sphere_coherent(
    center: Vec3,
    radius: int,
    r: Ray,
    tmin: int,
    tp: int,
    tmax: int,
)
    requires
        tp <= tmax,
    ensures
        match sphere_root_spec(center, radius, r, tmin, tmax) {
            Some(rt) => tmin <= rt <= tmax && (if rt <= tp {
                sphere_root_spec(center, radius, r, tmin, tp) == Some(rt)
            } else {
                sphere_root_spec(center, radius, r, tmin, tp) is None
            }),
            None => sphere_root_spec(center, radius, r, tmin, tp) is None,
        },
{
    let oc = Vec3 {
        x: (r.origin.x - center.x) as i128,
        y: (r.origin.y - center.y) as i128,
        z: (r.origin.z - center.z) as i128,
    };
    let a = crate::vec3::length_squared_spec(r.direction);
    if a != 0 {
        let half_b = crate::vec3::dot_spec(oc, r.direction);
        let c = crate::vec3::length_squared_spec(oc) - crate::fx::fx_mul_spec(radius, radius);
        let disc = crate::fx::fx_mul_spec(half_b, half_b) - crate::fx::fx_mul_spec(a, c);
        if disc >= 0 {
            let sqrtd = fx_sqrt_spec(disc);
            lemma_sqrt_exists(disc * SCALE as int);
            assert(sqrtd >= 0);
            let root1 = fx_div_spec(-half_b - sqrtd, a);
            assert(a >= 1) by {
                let d = r.direction;
                assert(d.x * d.x >= 0 && d.y * d.y >= 0 && d.z * d.z >= 0) by (nonlinear_arith);
                if a <= 0 {
                    assert(a == tdiv(d.x * d.x + d.y * d.y + d.z * d.z, SCALE as int));
                    crate::fx::lemma_tdiv_bounds(d.x * d.x + d.y * d.y + d.z * d.z, SCALE as int);
                }
            };
            lemma_tdiv_mono((-half_b - sqrtd) * SCALE as int, (-half_b + sqrtd) * SCALE as int, a);
            assert((-half_b - sqrtd) * SCALE as int <= (-half_b + sqrtd) * SCALE as int)
                by (nonlinear_arith)
                requires
                    sqrtd >= 0,
                    SCALE == 65536,
            ;
        }
    }
}

/// The same coherence lifted to the whole sphere hit.
pub proof fn lemma_sphere_hit_coherent(g: Geometry, r: Ray, tmin: int, tp: int, tmax: int)
    requires
        g is Sphere,
        tp <= tmax,
        -WMAX <= tmin <= WMAX,
        -WMAX <= tmax <= WMAX,
    ensures
        match hit_spec(g, r, tmin, tmax) {
            Some(h) => tmin <= h.t <= tmax && (if h.t <= tp {
                hit_spec(g, r, tmin, tp) == hit_spec(g, r, tmin, tmax)
            } else {
                hit_spec(g, r, tmin, tp) is None
            }),
            None => hit_spec(g, r, tmin, tp) is None,
        },
{
    match g {
        Geometry::Sphere { center, radius, material } => {
            lemma_sphere_coherent(center, radius as int, r, tmin, tp, tmax);
        },
        _ => {},
    }
}

/// What a scan reports over spheres: a hit exactly when some sphere hits,
/// and then the least reported parameter among them.
#[verifier::rlimit(100)]
#[verifier::spinoff_prover]
pub proof fn lemma_scan_min(s: Seq<Geometry>, r: Ray, tmin: int, tmax: int)
    requires
        forall|i: int| 0 <= i < s.len() ==> #[trigger] s[i] is Sphere,
        -WMAX <= tmin <= WMAX,
        -WMAX <= tmax <= WMAX,
    ensures
        scan_seq_spec(s, r, tmin, tmax) is Some <==> exists|i: int|
            0 <= i < s.len() && (#[trigger] hit_spec(s[i], r, tmin, tmax)) is Some,
        match scan_seq_spec(s, r, tmin, tmax) {
            Some(h) => candidate(s, r, tmin, tmax, h.t as int) && (forall|t2: int|
                #[trigger] candidate(s, r, tmin, tmax, t2) ==> h.t <= t2) && tmin <= h.t <= tmax,
            None => true,
        },
    decreases s.len(),
{
    if s.len() == 0 {
    } else {
        let first = hit_spec(s[0], r, tmin, tmax);
        lemma_sphere_hit_coherent(s[0], r, tmin, tmax, tmax);
        assert(forall|i: int| 1 <= i < s.len() ==> s.drop_first()[i - 1] == #[trigger] s[i]);
        match first {
            Option::None => {
                lemma_scan_min(s.drop_first(), r, tmin, tmax);
                match scan_seq_spec(s, r, tmin, tmax) {
                    Option::Some(h) => {
                        assert(candidate(s.drop_first(), r, tmin, tmax, h.t as int));
                        let i = choose|i: int|
                            0 <= i < s.drop_first().len() && ((#[trigger] hit_spec(
                                s.drop_first()[i],
                                r,
                                tmin,
                                tmax,
                            )) matches Some(hh) && hh.t == h.t);
                        assert(s.drop_first()[i] == s[i + 1]);
                        assert(candidate(s, r, tmin, tmax, h.t as int));
                        assert forall|t2: int|
                            #[trigger] candidate(s, r, tmin, tmax, t2) implies h.t <= t2 by {
                            let j = choose|j: int|
                                0 <= j < s.len() && ((#[trigger] hit_spec(s[j], r, tmin, tmax)) matches Some(
                                    hh,
                                ) && hh.t == t2);
                            assert(j != 0);
                            assert(s.drop_first()[j - 1] == s[j]);
                            assert(candidate(s.drop_first(), r, tmin, tmax, t2));
                        };
                    },
                    Option::None => {
                        assert forall|i: int|
                            0 <= i < s.len() implies !((#[trigger] hit_spec(
                            s[i],
                            r,
                            tmin,
                            tmax,
                        )) is Some) by {
                            if i >= 1 {
                                assert(s.drop_first()[i - 1] == s[i]);
                            }
                        };
                    },
                }
            },
            Option::Some(h0) => {
                let rest = scan_seq_spec(s.drop_first(), r, tmin, h0.t as int);
                lemma_scan_min(s.drop_first(), r, tmin, h0.t as int);
                assert(tmin <= h0.t <= tmax);
                match rest {
                    Option::Some(h2) => {
                        assert(scan_seq_spec(s, r, tmin, tmax) == Some(h2));
                        assert(candidate(s.drop_first(), r, tmin, h0.t as int, h2.t as int));
                        let i = choose|i: int|
                            0 <= i < s.drop_first().len() && ((#[trigger] hit_spec(
                                s.drop_first()[i],
                                r,
                                tmin,
                                h0.t as int,
                            )) matches Some(hh) && hh.t == h2.t);
                        assert(s.drop_first()[i] == s[i + 1]);
                        lemma_sphere_hit_coherent(s[i + 1], r, tmin, h0.t as int, h0.t as int);
                        assert(tmin <= h2.t <= h0.t);
                        lemma_lift_candidate(s, r, tmin, h0.t as int, tmax, i, h2.t as int);
                        assert(candidate(s, r, tmin, tmax, h2.t as int));
                        assert forall|t2: int|
                            #[trigger] candidate(s, r, tmin, tmax, t2) implies h2.t <= t2 by {
                            let j = choose|j: int|
                                0 <= j < s.len() && ((#[trigger] hit_spec(s[j], r, tmin, tmax)) matches Some(
                                    hh,
                                ) && hh.t == t2);
                            if j == 0 {
                                assert(t2 == h0.t);
                                assert(h2.t <= h0.t);
                            } else {
                                lemma_sphere_hit_coherent(s[j], r, tmin, h0.t as int, tmax);
                                if t2 <= h0.t {
                                    assert(s.drop_first()[j - 1] == s[j]);
                                    assert(candidate(s.drop_first(), r, tmin, h0.t as int, t2));
                                    assert(h2.t <= t2);
                                } else {
                                    assert(h2.t <= h0.t < t2);
                                }
                            }
                        };
                    },
                    Option::None => {
                        assert(scan_seq_spec(s, r, tmin, tmax) == Some(h0));
                        assert((hit_spec(s[0], r, tmin, tmax) matches Some(hh) && hh.t == h0.t));
                        assert(candidate(s, r, tmin, tmax, h0.t as int));
                        assert forall|t2: int|
                            #[trigger] candidate(s, r, tmin, tmax, t2) implies h0.t <= t2 by {
                            let j = choose|j: int|
                                0 <= j < s.len() && ((#[trigger] hit_spec(s[j], r, tmin, tmax)) matches Some(
                                    hh,
                                ) && hh.t == t2);
                            if j != 0 && t2 < h0.t {
                                lemma_sphere_hit_coherent(s[j], r, tmin, h0.t as int, tmax);
                                assert(s.drop_first()[j - 1] == s[j]);
                                assert(candidate(s.drop_first(), r, tmin, h0.t as int, t2));
                                assert(false);
                            }
                        };
                    },
                }
            },
        }
    }
}

/// A candidate on a shrunk range is a candidate on the enclosing range.
proof fn lemma_lift_candidate(
    s: Seq<Geometry>,
    r: Ray,
    tmin: int,
    tp: int,
    tmax: int,
    i: int,
    t: int,
)
    requires
        forall|k: int| 0 <= k < s.len() ==> #[trigger] s[k] is Sphere,
        tp <= tmax,
        -WMAX <= tmin <= WMAX,
        -WMAX <= tmax <= WMAX,
        -WMAX <= tp <= WMAX,
        0 <= i < s.drop_first().len(),
        s.len() >= 1,
        (hit_spec(s.drop_first()[i], r, tmin, tp) matches Some(h) && h.t == t),
    ensures
        candidate(s, r, tmin, tmax, t),
{
    assert(s.drop_first()[i] == s[i + 1]);
    lemma_sphere_hit_coherent(s[i + 1], r, tmin, tp, tp);
    assert(t <= tp);
    lemma_sphere_hit_coherent(s[i + 1], r, tmin, tp, tmax);
    if hit_spec(s[i + 1], r, tmin, tmax) is None {
        assert(hit_spec(s[i + 1], r, tmin, tp) is None);
        assert(false);
    }
    let hbig = hit_spec(s[i + 1], r, tmin, tmax)->Some_0;
    if hbig.t <= tp {
        assert(hit_spec(s[i + 1], r, tmin, tp) == hit_spec(s[i + 1], r, tmin, tmax));
        assert(((#[trigger] hit_spec(s[i + 1], r, tmin, tmax)) matches Some(hh) && hh.t == t));
    } else {
        assert(hit_spec(s[i + 1], r, tmin, tp) is None);
        assert(false);
    }
}

/// Scanning a concatenation is scanning the first part, then the second
/// within the best bound found so far (purely structural).
pub proof fn lemma_scan_append(a: Seq<Geometry>, b: Seq<Geometry>, r: Ray, tmin: int, tmax: int)
    ensures
        scan_seq_spec(a + b, r, tmin, tmax) == match scan_seq_spec(a, r, tmin, tmax) {
            Option::None => scan_seq_spec(b, r, tmin, tmax),
            Option::Some(h) => match scan_seq_spec(b, r, tmin, h.t as int) {
                Option::Some(h2) => Option::Some(h2),
                Option::None => Option::Some(h),
            },
        },
    decreases a.len(),
{
    if a.len() == 0 {
        assert(a + b =~= b);
    } else {
        assert((a + b)[0] == a[0]);
        assert((a + b).drop_first() =~= a.drop_first() + b);
        match hit_spec(a[0], r, tmin, tmax) {
            Option::None => {
                lemma_scan_append(a.drop_first(), b, r, tmin, tmax);
            },
            Option::Some(h0) => {
                lemma_scan_append(a.drop_first(), b, r, tmin, h0.t as int);
                match scan_seq_spec(a.drop_first(), r, tmin, h0.t as int) {
                    Option::Some(h2) => {
                        lemma_scan_append(a.drop_first(), b, r, tmin, h0.t as int);
                    },
                    Option::None => {},
                }
            },
        }
    }
}

/// Over spheres, the scan verdict and nearest parameter do not depend on
/// the order of the two halves.
#[verifier::rlimit(100)]
#[verifier::spinoff_prover]
pub proof fn lemma_scan_commute(a: Seq<Geometry>, b: Seq<Geometry>, r: Ray, tmin: int, tmax: int)
    requires
        forall|i: int| 0 <= i < a.len() ==> #[trigger] a[i] is Sphere,
        forall|i: int| 0 <= i < b.len() ==> #[trigger] b[i] is Sphere,
        -WMAX <= tmin <= WMAX,
        -WMAX <= tmax <= WMAX,
    ensures
        scan_seq_spec(a + b, r, tmin, tmax) is Some <==> scan_seq_spec(b + a, r, tmin, tmax) is Some,
        match (scan_seq_spec(a + b, r, tmin, tmax), scan_seq_spec(b + a, r, tmin, tmax)) {
            (Option::Some(h1), Option::Some(h2)) => h1.t == h2.t,
            _ => true,
        },
{
    assert(forall|i: int| 0 <= i < (a + b).len() ==> #[trigger] (a + b)[i] is Sphere);
    assert(forall|i: int| 0 <= i < (b + a).len() ==> #[trigger] (b + a)[i] is Sphere);
    lemma_scan_min(a + b, r, tmin, tmax);
    lemma_scan_min(b + a, r, tmin, tmax);
    assert forall|t: int| #[trigger] candidate(a + b, r, tmin, tmax, t) implies candidate(
        b + a,
        r,
        tmin,
        tmax,
        t,
    ) by {
        lemma_candidate_swap(a, b, r, tmin, tmax, t);
    };
    assert forall|t: int| #[trigger] candidate(b + a, r, tmin, tmax, t) implies candidate(
        a + b,
        r,
        tmin,
        tmax,
        t,
    ) by {
        lemma_candidate_swap(b, a, r, tmin, tmax, t);
    };
    if scan_seq_spec(a + b, r, tmin, tmax) is Some {
        let h = scan_seq_spec(a + b, r, tmin, tmax)->Some_0;
        let i = choose|i: int|
            0 <= i < (a + b).len() && ((#[trigger] hit_spec((a + b)[i], r, tmin, tmax)) matches Some(
                hh,
            ) && hh.t == h.t);
        if i < a.len() {
            assert((b + a)[b.len() + i] == (a + b)[i]);
        } else {
            assert((b + a)[i - a.len()] == (a + b)[i]);
        }
    }
    if scan_seq_spec(b + a, r, tmin, tmax) is Some {
        let h = scan_seq_spec(b + a, r, tmin, tmax)->Some_0;
        let i = choose|i: int|
            0 <= i < (b + a).len() && ((#[trigger] hit_spec((b + a)[i], r, tmin, tmax)) matches Some(
                hh,
            ) && hh.t == h.t);
        if i < b.len() {
            assert((a + b)[a.len() + i] == (b + a)[i]);
        } else {
            assert((a + b)[i - b.len()] == (b + a)[i]);
        }
    }
}

/// A candidate of one concatenation order is a candidate of the other.
proof fn lemma_candidate_swap(
    a: Seq<Geometry>,
    b: Seq<Geometry>,
    r: Ray,
    tmin: int,
    tmax: int,
    t: int,
)
    requires
        candidate(a + b, r, tmin, tmax, t),
    ensures
        candidate(b + a, r, tmin, tmax, t),
{
    let i = choose|i: int|
        0 <= i < (a + b).len() && ((#[trigger] hit_spec((a + b)[i], r, tmin, tmax)) matches Some(
            hh,
        ) && hh.t == t);
    if i < a.len() {
        assert((b + a)[b.len() + i] == (a + b)[i]);
    } else {
        assert((b + a)[i - a.len()] == (a + b)[i]);
    }
}

/// The leaves of a sphere tree are spheres.
pub proof fn lemma_leaves_spheres(g: Geometry)
    requires
        sphere_tree(g),
    ensures
        forall|i: int| 0 <= i < leaves(g).len() ==> #[trigger] leaves(g)[i] is Sphere,
        leaves(g).len() >= 1,
    decreases g,
{
    match g {
        Geometry::BVHNode { left, right, .. } => {
            lemma_leaves_spheres(*left);
            lemma_leaves_spheres(*right);
            assert(forall|i: int|
                0 <= i < leaves(*left).len() ==> #[trigger] leaves(g)[i] == leaves(*left)[i]);
            assert(forall|i: int|
                leaves(*left).len() <= i < leaves(g).len() ==> #[trigger] leaves(g)[i] == leaves(
                    *right,
                )[i - leaves(*left).len()]);
        },
        _ => {},
    }
}

/// Hits reported by a sphere tree lie within the queried range.
pub proof fn lemma_tree_hit_range(g: Geometry, r: Ray, tmin: int, tmax: int)
    requires
        sphere_tree(g),
        -WMAX <= tmin <= WMAX,
        -WMAX <= tmax <= WMAX,
    ensures
        hit_spec(g, r, tmin, tmax) matches Some(h) ==> tmin <= h.t <= tmax,
    decreases g,
{
    match g {
        Geometry::Sphere { .. } => {
            lemma_sphere_hit_coherent(g, r, tmin, tmax, tmax);
        },
        Geometry::BVHNode { left, right, bbox, axis } => {
            lemma_tree_hit_range(*left, r, tmin, tmax);
            lemma_tree_hit_range(*right, r, tmin, tmax);
            match hit_spec(*left, r, tmin, tmax) {
                Option::Some(lh) => {
                    lemma_tree_hit_range(*right, r, tmin, lh.t as int);
                },
                Option::None => {},
            }
            match hit_spec(*right, r, tmin, tmax) {
                Option::Some(rh) => {
                    lemma_tree_hit_range(*left, r, tmin, rh.t as int);
                },
                Option::None => {},
            }
        },
        _ => {},
    }
}

/// The BVH correctness law: over a well-covered tree of spheres, the
/// traversal reports a hit exactly when a linear scan of the tree's
/// spheres does, and at the same nearest parameter.
#[verifier::rlimit(100)]
pub proof fn lemma_bvh_matches_scan(g: Geometry, r: Ray, tmin: int, tmax: int)
    requires
        sphere_tree(g),
        covered(g),
        ray_in_range(r),
        -WMAX <= tmin <= WMAX,
        -WMAX <= tmax <= WMAX,
    ensures
        hit_spec(g, r, tmin, tmax) is Some <==> scan_seq_spec(leaves(g), r, tmin, tmax) is Some,
        match (hit_spec(g, r, tmin, tmax), scan_seq_spec(leaves(g), r, tmin, tmax)) {
            (Option::Some(h), Option::Some(hs)) => h.t == hs.t,
            _ => true,
        },
    decreases tree_rank(g),
{
    match g {
        Geometry::Sphere { .. } => {
            assert(leaves(g) =~= seq![g]);
            assert(leaves(g)[0] == g);
            assert(leaves(g).drop_first().len() == 0);
            match hit_spec(g, r, tmin, tmax) {
                Option::Some(h) => {
                    assert(scan_seq_spec(leaves(g).drop_first(), r, tmin, h.t as int) is None);
                    assert(scan_seq_spec(leaves(g), r, tmin, tmax) == Option::Some(h));
                },
                Option::None => {
                    assert(scan_seq_spec(leaves(g).drop_first(), r, tmin, tmax) is None);
                    assert(scan_seq_spec(leaves(g), r, tmin, tmax) is None);
                },
            }
        },
        Geometry::BVHNode { left, right, bbox, axis } => {
            let ll = leaves(*left);
            let lr = leaves(*right);
            lemma_leaves_spheres(*left);
            lemma_leaves_spheres(*right);
            assert(leaves(g) == ll + lr);
            let boxed = match bbox {
                Option::Some(b) => slab_spec(b, r, tmin, tmax),
                Option::None => true,
            };
            proof_helper_ranks(*left, *right);
            if !boxed {
                assert(hit_spec(*left, r, tmin, tmax) is None);
                assert(hit_spec(*right, r, tmin, tmax) is None);
                lemma_bvh_matches_scan(*left, r, tmin, tmax);
                lemma_bvh_matches_scan(*right, r, tmin, tmax);
                lemma_scan_append(ll, lr, r, tmin, tmax);
                assert(hit_spec(g, r, tmin, tmax) is None);
            } else {
                if crate::collider::axis_component(r.direction, axis as int) >= 0 {
                    lemma_bvh_node_case(*left, *right, r, tmin, tmax);
                    assert(hit_spec(g, r, tmin, tmax) == combine_hits(*left, *right, r, tmin, tmax));
                } else {
                    lemma_bvh_node_case(*right, *left, r, tmin, tmax);
                    assert(hit_spec(g, r, tmin, tmax) == combine_hits(*right, *left, r, tmin, tmax));
                    lemma_scan_commute(lr, ll, r, tmin, tmax);
                }
            }
        },
        _ => {},
    }
}

/// The traversal's near/far combination of two child hits.
pub open spec fn combine_hits(near: Geometry, far: Geometry, r: Ray, tmin: int, tmax: int) -> Option<
    HitInfo,
> {
    match hit_spec(near, r, tmin, tmax) {
        Option::Some(nh) => match hit_spec(far, r, tmin, nh.t as int) {
            Option::Some(fh) => Option::Some(fh),
            Option::None => Option::Some(nh),
        },
        Option::None => hit_spec(far, r, tmin, tmax),
    }
}

/// Ranks of two subtrees are positive.
proof fn proof_helper_ranks(a: Geometry, b: Geometry)
    ensures
        tree_rank(a) >= 1,
        tree_rank(b) >= 1,
{
    lemma_tree_rank_pos(a);
    lemma_tree_rank_pos(b);
}

/// One traversal order of a node matches the scan of the matching leaf
/// concatenation.
#[verifier::rlimit(100)]
#[verifier::spinoff_prover]
proof fn lemma_bvh_node_case(near: Geometry, far: Geometry, r: Ray, tmin: int, tmax: int)
    requires
        sphere_tree(near),
        sphere_tree(far),
        covered(near),
        covered(far),
        ray_in_range(r),
        -WMAX <= tmin <= WMAX,
        -WMAX <= tmax <= WMAX,
    ensures
        combine_hits(near, far, r, tmin, tmax) is Some <==> scan_seq_spec(
            leaves(near) + leaves(far),
            r,
            tmin,
            tmax,
        ) is Some,
        match (combine_hits(near, far, r, tmin, tmax), scan_seq_spec(
            leaves(near) + leaves(far),
            r,
            tmin,
            tmax,
        )) {
            (Option::Some(h), Option::Some(hs)) => h.t == hs.t,
            _ => true,
        },
    decreases tree_rank(near) + tree_rank(far),
{
    proof_helper_ranks(near, far);
    let ln = leaves(near);
    let lf = leaves(far);
    lemma_leaves_spheres(near);
    lemma_leaves_spheres(far);
    lemma_bvh_matches_scan(near, r, tmin, tmax);
    lemma_scan_append(ln, lf, r, tmin, tmax);
    match hit_spec(near, r, tmin, tmax) {
        Option::Some(nh) => {
            lemma_tree_hit_range(near, r, tmin, tmax);
            lemma_bvh_matches_scan(far, r, tmin, nh.t as int);
            let sn = scan_seq_spec(ln, r, tmin, tmax)->Some_0;
            assert(sn.t == nh.t);
        },
        Option::None => {
            lemma_bvh_matches_scan(far, r, tmin, tmax);
        },
    }
}

} // verus!
