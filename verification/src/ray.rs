//! A ray: origin plus direction, evaluated as `origin + t * direction`.

use crate::fixed::{fits_i64, mul_raw, Fx};
use crate::vec3::Vec3;
use vstd::prelude::*;

verus! {

#[derive(Clone, Copy, PartialEq, Eq, Structural, Debug)]
pub struct Ray {
    pub origin: Vec3,
    pub direction: Vec3,
}

/// The point at parameter `t` along the ray, each component rounded once.
pub open spec fn ray_at_spec(r: Ray, t: int) -> Vec3 {
    Vec3 {
        x: Fx { raw: (r.origin.x.raw + mul_raw(r.direction.x.raw as int, t)) as i64 },
        y: Fx { raw: (r.origin.y.raw + mul_raw(r.direction.y.raw as int, t)) as i64 },
        z: Fx { raw: (r.origin.z.raw + mul_raw(r.direction.z.raw as int, t)) as i64 },
    }
}

impl Ray {
    pub fn new(origin: Vec3, direction: Vec3) -> (r: Ray)
        ensures
            r.origin == origin,
            r.direction == direction,
    {
        Ray { origin, direction }
    }

    /// Evaluate the ray at parameter `t`.
    pub fn at(&self, t: Fx) -> (p: Vec3)
        requires
            fits_i64(mul_raw(self.direction.x.raw as int, t.raw as int)),
            fits_i64(mul_raw(self.direction.y.raw as int, t.raw as int)),
            fits_i64(mul_raw(self.direction.z.raw as int, t.raw as int)),
            fits_i64(self.origin.x.raw + mul_raw(self.direction.x.raw as int, t.raw as int)),
            fits_i64(self.origin.y.raw + mul_raw(self.direction.y.raw as int, t.raw as int)),
            fits_i64(self.origin.z.raw + mul_raw(self.direction.z.raw as int, t.raw as int)),
        ensures
            p == ray_at_spec(*self, t.raw as int),
    {
        self.origin.add(self.direction.scale(t))
    }

    pub fn origin(&self) -> (r: &Vec3)
        ensures
            r == self.origin,
    {
        &self.origin
    }

    pub fn direction(&self) -> (r: &Vec3)
        ensures
            r == self.direction,
    {
        &self.direction
    }
}

} // verus!
