//! Rays: an origin, a direction, and a time for moving geometry.

use vstd::prelude::*;
use crate::fx::{FX_LIM, fx_mul_spec};
use crate::vec3::{Vec3, Point3, vec_in_range};

verus! {

#[derive(Clone, Copy, PartialEq, Eq, Structural, Debug)]
pub struct Ray {
    pub origin: Point3,
    pub direction: Vec3,
    pub time: i128,
}

impl Ray {
    pub fn new(origin: Point3, direction: Vec3, time: i128) -> (r: Ray)
        ensures
            r == (Ray { origin, direction, time }),
    {
        Ray { origin, direction, time }
    }

    pub fn reset(&mut self, origin: Point3, direction: Vec3, time: i128)
        ensures
            *final(self) == (Ray { origin, direction, time }),
    {
        self.origin = origin;
        self.direction = direction;
        self.time = time;
    }

    /// The point `origin + t * direction` along the ray.
    pub fn at(&self, t: i128) -> (r: Point3)
        requires
            vec_in_range(self.origin, FX_LIM as int),
            vec_in_range(self.direction, FX_LIM as int),
            -FX_LIM <= t <= FX_LIM,
            -FX_LIM <= self.origin.x + fx_mul_spec(self.direction.x as int, t as int) <= FX_LIM,
            -FX_LIM <= self.origin.y + fx_mul_spec(self.direction.y as int, t as int) <= FX_LIM,
            -FX_LIM <= self.origin.z + fx_mul_spec(self.direction.z as int, t as int) <= FX_LIM,
        ensures
            r.x == self.origin.x + fx_mul_spec(self.direction.x as int, t as int),
            r.y == self.origin.y + fx_mul_spec(self.direction.y as int, t as int),
            r.z == self.origin.z + fx_mul_spec(self.direction.z as int, t as int),
    {
        let d = self.direction.scale(t);
        Vec3 {
            x: self.origin.x + d.x,
            y: self.origin.y + d.y,
            z: self.origin.z + d.z,
        }
    }
}

} // verus!
