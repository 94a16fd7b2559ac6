//! Fixed-point trigonometry: polynomial approximations with exact
//! spec-level counterparts and proved output ranges.

use vstd::prelude::*;
use crate::fx::{
    SCALE, PI_FX, TAU_FX, tdiv, fx_mul_spec, fx_div_spec, fx_mul, fx_div, lemma_tdiv_bounds,
    lemma_tdiv_neg, lemma_fx_mul_val_bound, lemma_tdiv_div_bound,
};

verus! {

/// pi / 2 in raw units.
pub const HALF_PI_FX: i128 = 102944;

/// pi / 4 in raw units, the leading arctangent coefficient.
pub const QUARTER_PI_FX: i128 = 51472;

/// 0.273 in raw units, the correction coefficient of the arctangent
/// approximation atan(z) ~ z * (pi/4 + 0.273 * (1 - |z|)).
pub const ATAN_C_FX: i128 = 17892;

/// The argument reduced into (-pi, pi], congruent modulo 2 pi.
pub open spec fn sin_reduce_spec(x: int) -> int {
    let m = x % (TAU_FX as int);
    if m > PI_FX {
        m - TAU_FX
    } else {
        m
    }
}

/// The reduced argument folded into [-pi/2, pi/2] without changing its sine.
pub open spec fn sin_fold_spec(x: int) -> int {
    if x > HALF_PI_FX {
        PI_FX - x
    } else if x < -HALF_PI_FX {
        -PI_FX - x
    } else {
        x
    }
}

/// The degree-five sine polynomial x - x^3/6 + x^5/120 in fixed point.
pub open spec fn sin_poly_spec(x: int) -> int {
    let x2 = fx_mul_spec(x, x);
    let x3 = fx_mul_spec(x2, x);
    let x5 = fx_mul_spec(x3, x2);
    x - tdiv(x3, 6) + tdiv(x5, 120)
}

/// The sine approximation: reduce, fold, evaluate, clamp into [-1, 1].
pub open spec fn fx_sin_spec(x: int) -> int {
    let p = sin_poly_spec(sin_fold_spec(sin_reduce_spec(x)));
    if p > SCALE {
        SCALE as int
    } else if p < -SCALE {
        -(SCALE as int)
    } else {
        p
    }
}

/// The cosine, as the sine shifted a quarter turn.
pub open spec fn fx_cos_spec(x: int) -> int {
    fx_sin_spec(x + HALF_PI_FX)
}

/// Fixed-point sine.
pub fn fx_sin(x: i128) -> (r: i128)
    requires
        -0x40000000000000000000000000 < x < 0x40000000000000000000000000,
    ensures
        r == fx_sin_spec(x as int),
        -SCALE <= r <= SCALE,
{
    let t: i128 = x % TAU_FX;
    let m: i128 = if t < 0 { t + TAU_FX } else { t };
    proof {
        assert(m == (x as int) % (TAU_FX as int));
    }
    let red: i128 = if m > PI_FX { m - TAU_FX } else { m };
    let folded: i128 = if red > HALF_PI_FX {
        PI_FX - red
    } else if red < -HALF_PI_FX {
        -PI_FX - red
    } else {
        red
    };
    proof {
        assert(-HALF_PI_FX <= folded <= HALF_PI_FX);
        lemma_fx_mul_val_bound(folded as int, folded as int, 102944, 102944);
        assert(102944int * 102944int / 65536int + 1 == 161705);
        lemma_fx_mul_val_bound(
            fx_mul_spec(folded as int, folded as int),
            folded as int,
            161705,
            102944,
        );
        assert(161705int * 102944int / 65536int + 1 == 254007);
        lemma_fx_mul_val_bound(
            fx_mul_spec(fx_mul_spec(folded as int, folded as int), folded as int),
            fx_mul_spec(folded as int, folded as int),
            254007,
            161705,
        );
        assert(254007int * 161705int / 65536int + 1 == 626743);
    }
    let x2: i128 = fx_mul(folded, folded);
    let x3: i128 = fx_mul(x2, folded);
    let x5: i128 = fx_mul(x3, x2);
    proof {
        lemma_tdiv_bounds(x3 as int, 6);
        lemma_tdiv_bounds(x5 as int, 120);
    }
    let p3: i128 = crate::fx::tdiv_i(x3, 6);
    let p5: i128 = crate::fx::tdiv_i(x5, 120);
    let q: i128 = folded - p3 + p5;
    if q > SCALE {
        SCALE
    } else if q < -SCALE {
        -SCALE
    } else {
        q
    }
}

/// Fixed-point cosine.
pub fn fx_cos(x: i128) -> (r: i128)
    requires
        -0x20000000000000000000000000 < x < 0x20000000000000000000000000,
    ensures
        r == fx_cos_spec(x as int),
        -SCALE <= r <= SCALE,
{
    fx_sin(x + HALF_PI_FX)
}

/// Fixed-point tangent: sine over cosine.
pub fn fx_tan(x: i128) -> (r: i128)
    requires
        -0x20000000000000000000000000 < x < 0x20000000000000000000000000,
        fx_cos_spec(x as int) != 0,
    ensures
        r == fx_div_spec(fx_sin_spec(x as int), fx_cos_spec(x as int)),
{
    let s = fx_sin(x);
    let c = fx_cos(x);
    fx_div(s, c)
}

/// The arctangent approximation on [-1, 1]:
/// z * (pi/4 + 0.273 * (1 - |z|)), odd in z.
pub open spec fn atan_poly_spec(z: int) -> int {
    let a = if z >= 0 {
        z
    } else {
        -z
    };
    let p = fx_mul_spec(a, QUARTER_PI_FX + fx_mul_spec(ATAN_C_FX as int, SCALE - a));
    if z >= 0 {
        p
    } else {
        -p
    }
}

fn atan_poly(z: i128) -> (r: i128)
    requires
        -SCALE <= z <= SCALE,
    ensures
        r == atan_poly_spec(z as int),
        -70000 <= r <= 70000,
        z >= 0 ==> r >= 0,
        z <= 0 ==> r <= 0,
{
    let a: i128 = if z >= 0 { z } else { -z };
    proof {
        lemma_fx_mul_val_bound(ATAN_C_FX as int, SCALE as int - a, 17892, 65536);
        assert(17892int * 65536int / 65536int + 1 == 17893);
        lemma_fx_mul_val_bound(
            a as int,
            QUARTER_PI_FX as int + fx_mul_spec(ATAN_C_FX as int, SCALE as int - a as int),
            65536,
            69365,
        );
        assert(65536int * 69365int / 65536int + 1 == 69366);
        assert(fx_mul_spec(a as int, QUARTER_PI_FX + fx_mul_spec(ATAN_C_FX as int, SCALE - a))
            >= 0) by {
            let w = QUARTER_PI_FX + fx_mul_spec(ATAN_C_FX as int, SCALE - a);
            assert(fx_mul_spec(ATAN_C_FX as int, SCALE - a) >= 0) by {
                crate::fx::lemma_mul_bound(ATAN_C_FX as int, SCALE as int - a, ATAN_C_FX as int, SCALE as int);
                assert(ATAN_C_FX as int * (SCALE as int - a) >= 0) by (nonlinear_arith)
                    requires
                        SCALE as int - a >= 0,
                ;
                lemma_tdiv_bounds(ATAN_C_FX as int * (SCALE as int - a), SCALE as int);
            };
            assert(a * w >= 0) by (nonlinear_arith)
                requires
                    a >= 0,
                    w >= 0,
            ;
            crate::fx::lemma_mul_bound(a as int, w, SCALE as int, 69365);
            lemma_tdiv_bounds(a as int * w, SCALE as int);
        };
    }
    proof {
        if a == 0 {
            assert(0 * (QUARTER_PI_FX as int + fx_mul_spec(ATAN_C_FX as int, SCALE as int - 0))
                == 0) by (nonlinear_arith);
            assert(crate::fx::tdiv(0, SCALE as int) == 0);
        }
    }
    let c: i128 = fx_mul(ATAN_C_FX, SCALE - a);
    let p: i128 = fx_mul(a, QUARTER_PI_FX + c);
    if z >= 0 {
        p
    } else {
        -p
    }
}

/// The angle of the point (x, y) in the plane, in (-pi, pi], by octant
/// reduction over the arctangent approximation.  The angle of the origin
/// itself is zero.
pub open spec fn atan2_spec(y: int, x: int) -> int {
    let ay = if y >= 0 {
        y
    } else {
        -y
    };
    let ax = if x >= 0 {
        x
    } else {
        -x
    };
    if ax == 0 && ay == 0 {
        0
    } else if ay <= ax {
        let base = atan_poly_spec(fx_div_spec(y, x));
        if x > 0 {
            base
        } else if y >= 0 {
            base + PI_FX
        } else {
            base - PI_FX
        }
    } else {
        let base = atan_poly_spec(fx_div_spec(x, y));
        if y > 0 {
            HALF_PI_FX - base
        } else {
            -HALF_PI_FX - base
        }
    }
}

/// Fixed-point two-argument arctangent.
pub fn fx_atan2(y: i128, x: i128) -> (r: i128)
    requires
        -1000000 * SCALE <= y <= 1000000 * SCALE,
        -1000000 * SCALE <= x <= 1000000 * SCALE,
    ensures
        r == atan2_spec(y as int, x as int),
        -PI_FX <= r <= PI_FX,
        y >= 0 && (y > 0 || x != 0) ==> 0 <= r <= PI_FX,
{
    let ay: i128 = if y >= 0 { y } else { -y };
    let ax: i128 = if x >= 0 { x } else { -x };
    if ax == 0 && ay == 0 {
        return 0;
    }
    if ay <= ax {
        proof {
            lemma_tdiv_neg(y as int * SCALE as int, x as int);
            assert(-SCALE <= fx_div_spec(y as int, x as int) <= SCALE) by {
                let px = if x >= 0 {
                    x as int
                } else {
                    -(x as int)
                };
                let py = if y >= 0 {
                    y as int
                } else {
                    -(y as int)
                };
                assert(py * SCALE as int <= px * SCALE as int) by (nonlinear_arith)
                    requires
                        py <= px,
                ;
                assert(px * SCALE as int == SCALE as int * px) by (nonlinear_arith);
                lemma_tdiv_div_bound(py * SCALE as int, px, SCALE as int);
                lemma_tdiv_neg(py * SCALE as int, px);
            };
        }
        let z = fx_div(y, x);
        proof {
            if y >= 0 && x > 0 {
                assert(y as int * SCALE as int >= 0) by (nonlinear_arith)
                    requires
                        y >= 0,
                ;
                lemma_tdiv_bounds(y as int * SCALE as int, x as int);
            }
            if y >= 0 && x < 0 {
                assert(y as int * SCALE as int >= 0) by (nonlinear_arith)
                    requires
                        y >= 0,
                ;
                lemma_tdiv_bounds(y as int * SCALE as int, -(x as int));
                lemma_tdiv_neg(y as int * SCALE as int, x as int);
            }
            if y < 0 && x < 0 {
                assert((-(y as int)) * SCALE as int >= 0) by (nonlinear_arith)
                    requires
                        y < 0,
                ;
                lemma_tdiv_bounds((-(y as int)) * SCALE as int, -(x as int));
                lemma_tdiv_neg((-(y as int)) * SCALE as int, -(x as int));
                assert((-(y as int)) * SCALE as int == -(y as int * SCALE as int))
                    by (nonlinear_arith);
            }
        }
        let base = atan_poly(z);
        if x > 0 {
            base
        } else if y >= 0 {
            base + PI_FX
        } else {
            base - PI_FX
        }
    } else {
        proof {
            assert(-SCALE <= fx_div_spec(x as int, y as int) <= SCALE) by {
                let px = if x >= 0 {
                    x as int
                } else {
                    -(x as int)
                };
                let py = if y >= 0 {
                    y as int
                } else {
                    -(y as int)
                };
                assert(px * SCALE as int <= py * SCALE as int) by (nonlinear_arith)
                    requires
                        px <= py,
                ;
                lemma_tdiv_div_bound(px * SCALE as int, py, SCALE as int);
                lemma_tdiv_neg(px * SCALE as int, py);
            };
        }
        let z = fx_div(x, y);
        let base = atan_poly(z);
        if y > 0 {
            HALF_PI_FX - base
        } else {
            -HALF_PI_FX - base
        }
    }
}

/// ln 2 in raw units.
pub const LN2_FX: i128 = 45426;

/// The number of doublings that bring `x` up into [SCALE, 2 * SCALE).
pub open spec fn ln_shift_spec(x: int) -> int
    recommends
        1 <= x <= SCALE,
    decreases 2 * SCALE - x,
{
    if x >= SCALE || x < 1 {
        0
    } else {
        1 + ln_shift_spec(2 * x)
    }
}

/// The alternating series for ln(1 + u), four terms, in fixed point.
pub open spec fn ln_series_spec(u: int) -> int {
    let u2 = fx_mul_spec(u, u);
    let u3 = fx_mul_spec(u2, u);
    let u4 = fx_mul_spec(u3, u);
    u - tdiv(u2, 2) + tdiv(u3, 3) - tdiv(u4, 4)
}

/// -ln(x / SCALE) for x in [1, SCALE], in fixed point, never negative:
/// j * ln 2 - ln(2^j * x / SCALE) over the doubling count j.
pub open spec fn neg_ln_unit_spec(x: int) -> int {
    let j = ln_shift_spec(x);
    let y = x * vstd::arithmetic::power2::pow2(j as nat);
    let value = j * LN2_FX - ln_series_spec(y - SCALE);
    if value >= 0 {
        value
    } else {
        0
    }
}

/// Fixed-point -ln on (0, 1]: the scaled negative logarithm of x / SCALE.
#[verifier::loop_isolation(false)]
pub fn fx_neg_ln_unit(x: i128) -> (r: i128)
    requires
        1 <= x <= SCALE,
    ensures
        r == neg_ln_unit_spec(x as int),
        0 <= r <= 17 * LN2_FX,
{
    let mut y: i128 = x;
    let mut j: i128 = 0;
    proof {
        vstd::arithmetic::power2::lemma2_to64();
        assert(vstd::arithmetic::power2::pow2(0) == 1);
        assert(x as int * 1 == x as int);
    }
    while y < SCALE
        invariant
            1 <= y <= 2 * SCALE,
            0 <= j <= 16,
            y == x * vstd::arithmetic::power2::pow2(j as nat),
            ln_shift_spec(x as int) == j + ln_shift_spec(y as int),
            y < SCALE ==> j < 16,
        decreases 2 * SCALE - y,
    {
        proof {
            if 2 * y < SCALE {
                assert(vstd::arithmetic::power2::pow2(j as nat) <= y) by (nonlinear_arith)
                    requires
                        x >= 1,
                        y == x as int * vstd::arithmetic::power2::pow2(j as nat),
                        vstd::arithmetic::power2::pow2(j as nat) >= 1,
                ;
                if j + 1 >= 16 {
                    assert(j == 15);
                    assert(vstd::arithmetic::power2::pow2(15) == 32768);
                    assert(false);
                }
            }
        }
        proof {
            assert(vstd::arithmetic::power2::pow2((j + 1) as nat) == 2 * vstd::arithmetic::power2::pow2(
                j as nat,
            )) by {
                vstd::arithmetic::power2::lemma_pow2_unfold((j + 1) as nat);
            };
            assert(x as int * (2 * vstd::arithmetic::power2::pow2(j as nat)) == 2 * (x as int
                * vstd::arithmetic::power2::pow2(j as nat))) by (nonlinear_arith);
            if j + 1 > 16 {
                assert(vstd::arithmetic::power2::pow2(17) == 131072) by {
                    vstd::arithmetic::power2::lemma_pow2_unfold(17);
                };
                assert(x as int * vstd::arithmetic::power2::pow2((j + 1) as nat) >= 131072)
                    by (nonlinear_arith)
                    requires
                        x >= 1,
                        vstd::arithmetic::power2::pow2((j + 1) as nat) >= 131072,
                ;
                assert(false);
            }
        }
        y = 2 * y;
        j = j + 1;
    }
    let u: i128 = y - SCALE;
    proof {
        assert(ln_shift_spec(y as int) == 0);
        lemma_fx_mul_val_bound(u as int, u as int, SCALE as int, SCALE as int);
        lemma_fx_mul_val_bound(fx_mul_spec(u as int, u as int), u as int, 65537, 65536);
        lemma_fx_mul_val_bound(
            fx_mul_spec(fx_mul_spec(u as int, u as int), u as int),
            u as int,
            65538,
            65536,
        );
        lemma_tdiv_bounds(fx_mul_spec(u as int, u as int), 2);
        lemma_tdiv_bounds(fx_mul_spec(fx_mul_spec(u as int, u as int), u as int), 3);
    }
    let u2 = fx_mul(u, u);
    let u3 = fx_mul(u2, u);
    let u4 = fx_mul(u3, u);
    proof {
        assert(0 <= u as int * u as int <= u as int * SCALE as int) by (nonlinear_arith)
            requires
                0 <= u <= SCALE,
        ;
        lemma_tdiv_div_bound(u as int * u as int, SCALE as int, u as int);
        assert(0 <= u2 as int * u as int <= u2 as int * SCALE as int) by (nonlinear_arith)
            requires
                0 <= u2,
                0 <= u <= SCALE,
        ;
        lemma_tdiv_div_bound(u2 as int * u as int, SCALE as int, u2 as int);
        assert(0 <= u3 as int * u as int <= u3 as int * SCALE as int) by (nonlinear_arith)
            requires
                0 <= u3,
                0 <= u <= SCALE,
        ;
        lemma_tdiv_div_bound(u3 as int * u as int, SCALE as int, u3 as int);
        lemma_tdiv_bounds(u2 as int, 2);
        lemma_tdiv_bounds(u3 as int, 3);
        lemma_tdiv_bounds(u4 as int, 4);
    }
    let s2 = crate::fx::tdiv_i(u2, 2);
    let s3 = crate::fx::tdiv_i(u3, 3);
    let s4 = crate::fx::tdiv_i(u4, 4);
    proof {
        assert(s2 <= u) by {
            assert(u2 as int / 2 <= u2 as int) by (nonlinear_arith)
                requires
                    u2 >= 0,
            ;
        };
        assert(s4 <= s3) by {
            assert(u4 as int / 4 <= u3 as int / 3) by (nonlinear_arith)
                requires
                    0 <= u4 <= u3,
            ;
        };
    }
    let series: i128 = u - s2 + s3 - s4;
    let value: i128 = j * LN2_FX - series;
    if value >= 0 {
        value
    } else {
        0
    }
}

} // verus!
