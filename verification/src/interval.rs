//! Closed numeric ranges over fixed-point values, used to bound valid ray
//! parameters and color channels.

use crate::fixed::{clamp_raw, Fx};
use vstd::prelude::*;

verus! {

#[derive(Clone, Copy, PartialEq, Eq, Structural, Debug)]
pub struct Interval {
    pub min: Fx,
    pub max: Fx,
}

impl Interval {
    pub fn new(min: Fx, max: Fx) -> (r: Interval)
        ensures
            r.min == min,
            r.max == max,
    {
        Interval { min, max }
    }

    /// Strict, open-interval containment.
    pub fn surrounds(&self, x: Fx) -> (r: bool)
        ensures
            r == (self.min.raw < x.raw && x.raw < self.max.raw),
    {
        self.min.raw < x.raw && x.raw < self.max.raw
    }

    /// Closed-interval containment.
    pub fn contains(&self, x: Fx) -> (r: bool)
        ensures
            r == (self.min.raw <= x.raw && x.raw <= self.max.raw),
    {
        self.min.raw <= x.raw && x.raw <= self.max.raw
    }

    /// Saturate `x` into `[min, max]`.
    pub fn clamp(&self, x: Fx) -> (r: Fx)
        requires
            self.min.raw <= self.max.raw,
        ensures
            r.raw == clamp_raw(x.raw as int, self.min.raw as int, self.max.raw as int),
    {
        x.clamp(self.min, self.max)
    }
}

impl Default for Interval {
    /// The widest representable interval, standing in for `(-inf, +inf)`.
    fn default() -> (r: Interval)
        ensures
            r.min.raw == i64::MIN,
            r.max.raw == i64::MAX,
    {
        Interval { min: Fx { raw: i64::MIN }, max: Fx { raw: i64::MAX } }
    }
}

} // verus!
