//! Random sampling, clamping and angle conversion.
//!
//! The random sources wrap the `rand` crate; everything downstream of them is
//! verified for every value they may return.

use vstd::prelude::*;
use crate::fx::{SCALE, PI_FX, fx_mul_spec, fx_div_spec, fx_mul, fx_div, FX_LIM};

verus! {

/// A uniformly random scalar in [0, 1).
///
/// Relies on rand's `Rng::gen_range` over `0..SCALE`: it panics only on an
/// empty range and returns a value of the given range.
#[verifier::external_body]
pub fn random() -> (r: i128)
    ensures
        0 <= r < SCALE,
{
    rand::Rng::gen_range(&mut rand::thread_rng(), 0..SCALE)
}

/// A uniformly random scalar in [min, max).
///
/// Relies on rand's `Rng::gen_range` over `min..max`: it panics only on an
/// empty range and returns a value of the given range.
#[verifier::external_body]
pub fn randrange(min_inclusive: i128, max_exclusive: i128) -> (r: i128)
    requires
        min_inclusive < max_exclusive,
    ensures
        min_inclusive <= r < max_exclusive,
{
    rand::Rng::gen_range(&mut rand::thread_rng(), min_inclusive..max_exclusive)
}

/// A uniformly random signed integer in [min, max).
///
/// Relies on rand's `Rng::gen_range` over `min..max`: it panics only on an
/// empty range and returns a value of the given range.
#[verifier::external_body]
pub fn randint(min_inclusive: isize, max_exclusive: isize) -> (r: isize)
    requires
        min_inclusive < max_exclusive,
    ensures
        min_inclusive <= r < max_exclusive,
{
    rand::Rng::gen_range(&mut rand::thread_rng(), min_inclusive..max_exclusive)
}

/// A uniformly random unsigned integer in [min, max).
///
/// Relies on rand's `Rng::gen_range` over `min..max`: it panics only on an
/// empty range and returns a value of the given range.
#[verifier::external_body]
pub fn randuint(min_inclusive: usize, max_exclusive: usize) -> (r: usize)
    requires
        min_inclusive < max_exclusive,
    ensures
        min_inclusive <= r < max_exclusive,
{
    rand::Rng::gen_range(&mut rand::thread_rng(), min_inclusive..max_exclusive)
}

/// `x` forced into [min, max].
pub fn clamp(x: i128, min: i128, max: i128) -> (r: i128)
    requires
        min <= max,
    ensures
        r == if x < min { min as int } else if x > max { max as int } else { x as int },
        min <= r <= max,
{
    if x < min {
        return min;
    }
    if x > max {
        return max;
    }
    x
}

/// Degrees scaled by pi / 180.
pub open spec fn to_radians_spec(degrees: int) -> int {
    fx_div_spec(fx_mul_spec(degrees, PI_FX as int), 180 * SCALE as int)
}

/// Converts an angle in degrees to radians, in fixed point.
pub fn to_radians(degrees: i128) -> (r: i128)
    requires
        -36000 * SCALE <= degrees <= 36000 * SCALE,
    ensures
        r == to_radians_spec(degrees as int),
{
    let t: i128 = fx_mul(degrees, PI_FX);
    fx_div(t, 180 * SCALE)
}

} // verus!
