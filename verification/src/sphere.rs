//! The geometric primitive: a sphere owning its material by value.

use crate::fixed::Fx;
use crate::material::Material;
use crate::vec3::Vec3;
use vstd::prelude::*;

verus! {

#[derive(Clone, Copy, PartialEq, Eq, Structural, Debug)]
pub struct Sphere {
    pub center: Vec3,
    pub radius: Fx,
    pub mat: Material,
}

impl Sphere {
    /// Build a sphere; a negative radius is clamped to zero.
    pub fn new(center: Vec3, radius: Fx, mat: Material) -> (r: Sphere)
        ensures
            r.center == center,
            r.radius.raw == if radius.raw >= 0 { radius.raw as int } else { 0 },
            r.mat == mat,
    {
        let rad = if radius.raw >= 0 { radius } else { Fx { raw: 0 } };
        Sphere { center, radius: rad, mat }
    }
}

} // verus!
