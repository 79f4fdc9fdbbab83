//! The transient result of an intersection query.

use crate::fixed::Fx;
use crate::material::{mat_wf, Material};
use crate::ray::Ray;
use crate::vec3::{bounded, dot_raw, dot_wide, is_zero, neg_spec, Vec3, DIR_B, POS_B, UNIT_B};
use vstd::prelude::*;

verus! {

/// The nearest valid intersection found so far: hit point, oriented unit-like
/// normal, ray parameter, side flag, and a copy of the struck material.
#[derive(Clone, Copy, PartialEq, Eq, Structural, Debug)]
pub struct HitRecord {
    pub front_face: bool,
    pub mat: Material,
    pub normal: Vec3,
    pub p: Vec3,
    pub t: Fx,
}

/// What every record produced by an intersection query satisfies: the hit
/// point and normal are bounded, the normal is nonzero, and the material is
/// well formed.
pub open spec fn rec_wf(rec: HitRecord) -> bool {
    &&& bounded(rec.p, POS_B as int)
    &&& bounded(rec.normal, UNIT_B as int)
    &&& !is_zero(rec.normal)
    &&& mat_wf(rec.mat)
}

/// The oriented normal: the outward normal if the ray strikes the outside,
/// its negation if it strikes from within.
pub open spec fn face_normal_spec(r: Ray, outward_normal: Vec3) -> Vec3 {
    if dot_raw(r.direction, outward_normal) < 0 {
        outward_normal
    } else {
        neg_spec(outward_normal)
    }
}

impl HitRecord {
    /// Orient the stored normal against the incoming ray. The parameter
    /// `outward_normal` is assumed to point out of the surface.
    pub fn set_face_normal(&mut self, r: &Ray, outward_normal: Vec3)
        requires
            bounded(r.direction, DIR_B as int),
            bounded(outward_normal, UNIT_B as int),
        ensures
            final(self).front_face == (dot_raw(r.direction, outward_normal) < 0),
            final(self).normal == face_normal_spec(*r, outward_normal),
            final(self).mat == old(self).mat,
            final(self).p == old(self).p,
            final(self).t == old(self).t,
    {
        let d = dot_wide(&r.direction, &outward_normal);
        self.front_face = d < 0;
        self.normal = if self.front_face {
            outward_normal
        } else {
            outward_normal.neg()
        };
    }
}

} // verus!
