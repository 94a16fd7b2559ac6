//! Fixed-point scalar arithmetic.
//!
//! Every scalar in this library is an `i128` holding a real number scaled by
//! `SCALE` (a value of `SCALE` means 1.0).  All operations round toward zero,
//! and each executable operation is pinned to a spec-level counterpart that
//! states its result exactly.

use vstd::prelude::*;
use vstd::math::abs;

verus! {

/// Raw units per 1.0.
pub const SCALE: i128 = 65536;

/// pi in fixed-point raw units (rounded to nearest).
pub const PI_FX: i128 = 205887;

/// 2 * pi in fixed-point raw units (rounded to nearest).
pub const TAU_FX: i128 = 411775;

/// Bound on the operands accepted by `fx_mul`: products stay below 2^126.
pub const FX_LIM: i128 = 4611686018427387904;

/// Bound on the domain of `fx_sqrt` (2^109): scaling up by SCALE stays
/// below 2^126.
pub const SQ_LIM: i128 = 649037107316853453566312041152512;

/// Bound on every world coordinate, radius and ray parameter (2^34 raw,
/// about 262144 world units).  Keeping geometry inside this range keeps all
/// intermediate products of the intersection formulas inside `i128`.
pub const WMAX: i128 = 17179869184;

/// Division truncating toward zero, the semantics of Rust's `/` on signed
/// integers (spec-level `/` on `int` is Euclidean, which differs on negatives).
pub open spec fn tdiv(a: int, b: int) -> int
    recommends
        b != 0,
{
    if a >= 0 {
        if b >= 0 {
            a / b
        } else {
            -(a / (-b))
        }
    } else {
        if b >= 0 {
            -((-a) / b)
        } else {
            (-a) / (-b)
        }
    }
}

/// The fixed-point product: (a * b) / SCALE, truncated toward zero.
pub open spec fn fx_mul_spec(a: int, b: int) -> int {
    tdiv(a * b, SCALE as int)
}

/// The fixed-point quotient: (a * SCALE) / b, truncated toward zero.
pub open spec fn fx_div_spec(a: int, b: int) -> int
    recommends
        b != 0,
{
    tdiv(a * (SCALE as int), b)
}

/// The integer square root, rounded down.
pub open spec fn sqrt_floor(x: int) -> int
    recommends
        x >= 0,
{
    choose|r: int| 0 <= r && #[trigger] (r * r) <= x < (r + 1) * (r + 1)
}

/// The fixed-point square root of a fixed-point value: since
/// sqrt(v) = sqrt(v * SCALE^2) / SCALE, scaling the raw value up by SCALE
/// before the integer square root yields the raw result.
pub open spec fn fx_sqrt_spec(x: int) -> int
    recommends
        x >= 0,
{
    sqrt_floor(x * (SCALE as int))
}

/// Square roots exist for every nonnegative integer: the witness is found
/// by counting up through the predecessor's root.
pub proof fn lemma_sqrt_exists(x: int)
    requires
        x >= 0,
    ensures
        exists|r0: int| 0 <= r0 && #[trigger] (r0 * r0) <= x < (r0 + 1) * (r0 + 1),
        0 <= sqrt_floor(x),
        sqrt_floor(x) * sqrt_floor(x) <= x,
        x < (sqrt_floor(x) + 1) * (sqrt_floor(x) + 1),
    decreases x,
{
    if x == 0 {
        assert(0 <= 0int && (0int * 0int) <= x < (0int + 1) * (0int + 1));
    } else {
        lemma_sqrt_exists(x - 1);
        let r0 = choose|r0: int| 0 <= r0 && #[trigger] (r0 * r0) <= x - 1 < (r0 + 1) * (r0 + 1);
        if (r0 + 1) * (r0 + 1) <= x {
            assert((r0 + 1) * (r0 + 1) == x);
            assert(0 <= r0 + 1 && ((r0 + 1) * (r0 + 1)) <= x < ((r0 + 1) + 1) * ((r0 + 1) + 1))
                by (nonlinear_arith)
                requires
                    r0 >= 0,
                    (r0 + 1) * (r0 + 1) == x,
            ;
        } else {
            assert(0 <= r0 && (r0 * r0) <= x < (r0 + 1) * (r0 + 1));
        }
    }
}

pub proof fn lemma_sqrt_floor_exists(x: int, r: int)
    requires
        0 <= r,
        r * r <= x,
        x < (r + 1) * (r + 1),
    ensures
        sqrt_floor(x) == r,
{
    assert(0 <= r && r * r <= x < (r + 1) * (r + 1));
    let s = sqrt_floor(x);
    assert(0 <= s && s * s <= x < (s + 1) * (s + 1));
    if s < r {
        assert((s + 1) * (s + 1) <= r * r) by (nonlinear_arith)
            requires
                0 <= s,
                s < r,
        ;
        assert(false);
    }
    if r < s {
        assert((r + 1) * (r + 1) <= s * s) by (nonlinear_arith)
            requires
                0 <= r,
                r < s,
        ;
        assert(false);
    }
}

/// |a * b| <= bound_a * bound_b whenever the factors are bounded.
pub proof fn lemma_mul_bound(a: int, b: int, ba: int, bb: int)
    requires
        -ba <= a <= ba,
        -bb <= b <= bb,
    ensures
        -(ba * bb) <= a * b <= ba * bb,
{
    assert(-(ba * bb) <= a * b <= ba * bb) by (nonlinear_arith)
        requires
            -ba <= a <= ba,
            -bb <= b <= bb,
    ;
}

/// Truncating division by a positive divisor never grows the magnitude,
/// keeps zero at zero, and preserves sign.
pub proof fn lemma_tdiv_bounds(a: int, b: int)
    requires
        b >= 1,
    ensures
        a >= 0 ==> 0 <= tdiv(a, b) <= a,
        a < 0 ==> a <= tdiv(a, b) <= 0,
        -abs(a) <= tdiv(a, b) <= abs(a),
{
    if a >= 0 {
        assert(0 <= a / b <= a) by (nonlinear_arith)
            requires
                a >= 0,
                b >= 1,
        ;
    } else {
        assert(0 <= (-a) / b <= -a) by (nonlinear_arith)
            requires
                -a > 0,
                b >= 1,
        ;
    }
}

/// A quotient by a positive divisor is bounded by any bound on `a / b`.
pub proof fn lemma_tdiv_div_bound(a: int, b: int, c: int)
    requires
        b >= 1,
        c >= 0,
        -(c * b) <= a <= c * b,
    ensures
        -c <= tdiv(a, b) <= c,
{
    if a >= 0 {
        assert(a / b <= c) by (nonlinear_arith)
            requires
                b >= 1,
                c >= 0,
                a <= c * b,
        ;
        lemma_tdiv_bounds(a, b);
    } else {
        assert((-a) / b <= c) by (nonlinear_arith)
            requires
                b >= 1,
                c >= 0,
                -a <= c * b,
        ;
        lemma_tdiv_bounds(a, b);
    }
}

/// A fixed-point product of bounded factors is bounded by the scaled-down
/// product of the bounds, plus one for rounding.
pub proof fn lemma_fx_mul_val_bound(a: int, b: int, ba: int, bb: int)
    requires
        ba >= 0,
        bb >= 0,
        -ba <= a <= ba,
        -bb <= b <= bb,
    ensures
        -(ba * bb / SCALE as int + 1) <= fx_mul_spec(a, b) <= ba * bb / SCALE as int + 1,
{
    lemma_mul_bound(a, b, ba, bb);
    assert(ba * bb <= (ba * bb / SCALE as int + 1) * SCALE as int) by (nonlinear_arith)
        requires
            ba >= 0,
            bb >= 0,
    ;
    lemma_tdiv_div_bound(a * b, SCALE as int, ba * bb / SCALE as int + 1);
}

/// The product of two magnitudes is bounded by the product of their bounds.
pub proof fn lemma_abs_mul_bound(a: int, b: int, ba: int, bb: int)
    requires
        abs(a) <= ba,
        abs(b) <= bb,
    ensures
        abs(a) * abs(b) <= ba * bb,
{
    assert(abs(a) * abs(b) <= ba * bb) by (nonlinear_arith)
        requires
            0 <= abs(a) <= ba,
            0 <= abs(b) <= bb,
    ;
}

/// Negating the numerator negates a truncating quotient exactly.
pub proof fn lemma_tdiv_neg(a: int, b: int)
    requires
        b != 0,
    ensures
        tdiv(-a, b) == -tdiv(a, b),
        tdiv(a, -b) == -tdiv(a, b),
{
}

/// Truncating division by a positive divisor is monotone in the numerator.
pub proof fn lemma_tdiv_mono(a1: int, a2: int, b: int)
    requires
        b >= 1,
        a1 <= a2,
    ensures
        tdiv(a1, b) <= tdiv(a2, b),
{
    if a1 >= 0 {
        assert(a1 / b <= a2 / b) by (nonlinear_arith)
            requires
                0 <= a1 <= a2,
                b >= 1,
        ;
    } else if a2 < 0 {
        assert((-a2) / b <= (-a1) / b) by (nonlinear_arith)
            requires
                0 < -a2 <= -a1,
                b >= 1,
        ;
    } else {
        assert(0 <= (-a1) / b) by (nonlinear_arith)
            requires
                -a1 >= 0,
                b >= 1,
        ;
        assert(0 <= a2 / b) by (nonlinear_arith)
            requires
                a2 >= 0,
                b >= 1,
        ;
    }
}

/// Truncating division toward zero of `a` by a positive `b`.
pub(crate) fn tdiv_i(a: i128, b: i128) -> (q: i128)
    requires
        1 <= b,
        -0x40000000000000000000000000000000 < a < 0x40000000000000000000000000000000,
    ensures
        q == tdiv(a as int, b as int),
{
    if a >= 0 {
        a / b
    } else {
        proof {
            lemma_tdiv_bounds(-(a as int), b as int);
        }
        -((-a) / b)
    }
}

/// Fixed-point multiplication, truncating toward zero.
pub fn fx_mul(a: i128, b: i128) -> (r: i128)
    requires
        -FX_LIM <= a <= FX_LIM,
        -FX_LIM <= b <= FX_LIM,
    ensures
        r == fx_mul_spec(a as int, b as int),
        abs(r as int) <= abs(a as int) * abs(b as int),
{
    proof {
        lemma_mul_bound(a as int, b as int, FX_LIM as int, FX_LIM as int);
        lemma_tdiv_bounds(a as int * b as int, SCALE as int);
        lemma_mul_bound(a as int, b as int, abs(a as int) as int, abs(b as int) as int);
    }
    let p: i128 = a * b;
    tdiv_i(p, SCALE)
}

/// Fixed-point division, truncating toward zero.
pub fn fx_div(a: i128, b: i128) -> (r: i128)
    requires
        b != 0,
        -FX_LIM <= a <= FX_LIM,
        -FX_LIM < b < FX_LIM,
    ensures
        r == fx_div_spec(a as int, b as int),
{
    proof {
        lemma_mul_bound(a as int, SCALE as int, FX_LIM as int, SCALE as int);
        lemma_tdiv_bounds(a as int * SCALE as int, abs(b as int) as int);
        lemma_tdiv_neg(a as int * SCALE as int, b as int);
    }
    let p: i128 = a * SCALE;
    if b > 0 {
        tdiv_i(p, b)
    } else {
        -tdiv_i(p, -b)
    }
}

/// Integer square root on unsigned 128-bit values, by bisection.
#[verifier::loop_isolation(false)]
fn isqrt_u(x: u128) -> (r: u128)
    requires
        x < 0x40000000000000000000000000000000,
    ensures
        r * r <= x,
        x < (r + 1) * (r + 1),
        r < 0x8000000000000000,
{
    let mut lo: u128 = 0;
    let mut hi: u128 = 0x8000000000000000;
    proof {
        assert((hi * hi) as int == 0x40000000000000000000000000000000);
    }
    while lo + 1 < hi
        invariant
            lo < hi,
            lo * lo <= x,
            x < hi * hi,
            hi <= 0x8000000000000000,
        decreases hi - lo,
    {
        let mid: u128 = lo + (hi - lo) / 2;
        proof {
            assert(mid * mid < 0x8000000000000001u128 * 0x8000000000000001u128) by (nonlinear_arith)
                requires
                    mid <= 0x8000000000000000u128,
            ;
        }
        if mid * mid <= x {
            lo = mid;
        } else {
            hi = mid;
        }
    }
    lo
}

/// Fixed-point square root: `fx_sqrt(x)` is the raw value of sqrt(x / SCALE)
/// scaled back up, rounded down.  Exact on perfect squares such as 1.0.
pub fn fx_sqrt(x: i128) -> (r: i128)
    requires
        0 <= x <= SQ_LIM,
    ensures
        r == fx_sqrt_spec(x as int),
        0 <= r,
        r * r <= x * SCALE,
        x * SCALE < (r + 1) * (r + 1),
{
    proof {
        lemma_mul_bound(x as int, SCALE as int, SQ_LIM as int, SCALE as int);
    }
    let p: i128 = x * SCALE;
    let up: u128 = p as u128;
    let rq: u128 = isqrt_u(up);
    let r: i128 = rq as i128;
    proof {
        lemma_sqrt_floor_exists(p as int, r as int);
    }
    r
}

/// The smaller of two scalars.
pub fn fx_min(a: i128, b: i128) -> (r: i128)
    ensures
        r == if a <= b { a as int } else { b as int },
{
    if a <= b { a } else { b }
}

/// The larger of two scalars.
pub fn fx_max(a: i128, b: i128) -> (r: i128)
    ensures
        r == if a >= b { a as int } else { b as int },
{
    if a >= b { a } else { b }
}

/// The magnitude of a scalar.
pub fn fx_abs(a: i128) -> (r: i128)
    requires
        -0x40000000000000000000000000000000 < a,
    ensures
        r == abs(a as int),
{
    if a < 0 { -a } else { a }
}

/// Largest multiple of SCALE at or below `x` (the fixed-point floor,
/// rounding toward negative infinity).
pub open spec fn fx_floor_spec(x: int) -> int {
    x - (x % (SCALE as int))
}

/// Fixed-point floor toward negative infinity.
pub fn fx_floor(x: i128) -> (r: i128)
    requires
        -0x40000000000000000000000000000000 < x < 0x40000000000000000000000000000000,
    ensures
        r == fx_floor_spec(x as int),
        x - SCALE < r <= x,
        r % SCALE == 0,
{
    let t: i128 = x % SCALE;
    let m: i128 = if t < 0 { t + SCALE } else { t };
    proof {
        assert(m == (x as int) % (SCALE as int));
    }
    x - m
}

} // verus!
