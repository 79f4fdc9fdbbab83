//! Three-component fixed-point vectors, used as points, directions and colors.
//!
//! Products and quotients round once: a dot product is the floor of the exact
//! raw product sum divided by `SCALE`, so each operation's contract is an
//! exact integer formula.

use crate::fixed::{
    div_raw, fits_i64, floor_div_i128, isqrt_u128, lemma_div_bound, lemma_mul_bound,
    lemma_mul_raw_bound, lemma_sqrt_floor, lemma_sqrt_floor_is_monotonic, lemma_sqrt_floor_unique,
    lemma_sqrt_floor_upper, mul_raw, sqrt_floor, wide_mul, Fx, SCALE,
};
use crate::rng::{rand_between, RandomSource};
use vstd::arithmetic::div_mod::{
    lemma_div_is_ordered, lemma_div_multiples_vanish, lemma_div_pos_is_pos,
};
use vstd::prelude::*;

verus! {

/// Bound on the raw components of scene positions and hit points.
pub const POS_B: i64 = 0x1000_0000;

/// Bound on the raw components of ray directions.
pub const DIR_B: i64 = 0x4000_0000;

/// Bound on the raw components of unit-length-like vectors (normals, samples).
pub const UNIT_B: i64 = 0x40000;

#[derive(Clone, Copy, PartialEq, Eq, Structural, Debug)]
pub struct Vec3 {
    pub x: Fx,
    pub y: Fx,
    pub z: Fx,
}

/// All raw components of `v` lie in `[-b, b]`.
pub open spec fn bounded(v: Vec3, b: int) -> bool {
    &&& -b <= v.x.raw <= b
    &&& -b <= v.y.raw <= b
    &&& -b <= v.z.raw <= b
}

pub open spec fn is_zero(v: Vec3) -> bool {
    v.x.raw == 0 && v.y.raw == 0 && v.z.raw == 0
}

/// Raw dot product, in units of `SCALE * SCALE`.
pub open spec fn dot_raw(a: Vec3, b: Vec3) -> int {
    a.x.raw * b.x.raw + a.y.raw * b.y.raw + a.z.raw * b.z.raw
}

/// Raw value of the fixed-point dot product.
pub open spec fn dot_fx_raw(a: Vec3, b: Vec3) -> int {
    dot_raw(a, b) / (SCALE as int)
}

/// Raw value of the fixed-point length: the floor square root of the raw dot product.
pub open spec fn len_raw(v: Vec3) -> int {
    sqrt_floor(dot_raw(v, v))
}

/// The normalized vector: each component divided by the fixed-point length.
pub open spec fn normalize_spec(v: Vec3) -> Vec3 {
    Vec3 {
        x: Fx { raw: div_raw(v.x.raw as int, len_raw(v)) as i64 },
        y: Fx { raw: div_raw(v.y.raw as int, len_raw(v)) as i64 },
        z: Fx { raw: div_raw(v.z.raw as int, len_raw(v)) as i64 },
    }
}

/// A vector that came out of normalization: components within one, not all zero.
pub open spec fn unit_ish(v: Vec3) -> bool {
    bounded(v, SCALE as int) && !is_zero(v)
}

/// Mirror-reflection of `v` about the normal `n`: `v - 2*dot(v,n)*n`.
pub open spec fn reflect_spec(v: Vec3, n: Vec3) -> Vec3 {
    let d2 = 2 * dot_fx_raw(v, n);
    Vec3 {
        x: Fx { raw: (v.x.raw - mul_raw(n.x.raw as int, d2)) as i64 },
        y: Fx { raw: (v.y.raw - mul_raw(n.y.raw as int, d2)) as i64 },
        z: Fx { raw: (v.z.raw - mul_raw(n.z.raw as int, d2)) as i64 },
    }
}

/// The dot product of a vector with itself is nonnegative.
pub proof fn lemma_dot_self_nonneg(v: Vec3)
    ensures
        dot_raw(v, v) >= 0,
{
    assert(v.x.raw * v.x.raw >= 0) by (nonlinear_arith);
    assert(v.y.raw * v.y.raw >= 0) by (nonlinear_arith);
    assert(v.z.raw * v.z.raw >= 0) by (nonlinear_arith);
}

/// Bound on the raw dot product from bounds on the operands.
pub proof fn lemma_dot_raw_bound(a: Vec3, b: Vec3, aa: int, bb: int)
    requires
        bounded(a, aa),
        bounded(b, bb),
        0 <= aa,
        0 <= bb,
    ensures
        -3 * (aa * bb) <= dot_raw(a, b) <= 3 * (aa * bb),
{
    lemma_mul_bound(a.x.raw as int, b.x.raw as int, aa, bb);
    lemma_mul_bound(a.y.raw as int, b.y.raw as int, aa, bb);
    lemma_mul_bound(a.z.raw as int, b.z.raw as int, aa, bb);
}

impl Vec3 {
    pub fn new(x: Fx, y: Fx, z: Fx) -> (r: Vec3)
        ensures
            r == (Vec3 { x, y, z }),
    {
        Vec3 { x, y, z }
    }

    pub fn zero() -> (r: Vec3)
        ensures
            r.x.raw == 0 && r.y.raw == 0 && r.z.raw == 0,
    {
        Vec3 { x: Fx { raw: 0 }, y: Fx { raw: 0 }, z: Fx { raw: 0 } }
    }

    pub fn x(&self) -> (r: Fx)
        ensures
            r == self.x,
    {
        self.x
    }

    pub fn y(&self) -> (r: Fx)
        ensures
            r == self.y,
    {
        self.y
    }

    pub fn z(&self) -> (r: Fx)
        ensures
            r == self.z,
    {
        self.z
    }

    pub fn add(self, o: Vec3) -> (r: Vec3)
        requires
            fits_i64(self.x.raw + o.x.raw),
            fits_i64(self.y.raw + o.y.raw),
            fits_i64(self.z.raw + o.z.raw),
        ensures
            r.x.raw == self.x.raw + o.x.raw,
            r.y.raw == self.y.raw + o.y.raw,
            r.z.raw == self.z.raw + o.z.raw,
    {
        Vec3 { x: self.x.add(o.x), y: self.y.add(o.y), z: self.z.add(o.z) }
    }

    pub fn sub(self, o: Vec3) -> (r: Vec3)
        requires
            fits_i64(self.x.raw - o.x.raw),
            fits_i64(self.y.raw - o.y.raw),
            fits_i64(self.z.raw - o.z.raw),
        ensures
            r.x.raw == self.x.raw - o.x.raw,
            r.y.raw == self.y.raw - o.y.raw,
            r.z.raw == self.z.raw - o.z.raw,
    {
        Vec3 { x: self.x.sub(o.x), y: self.y.sub(o.y), z: self.z.sub(o.z) }
    }

    pub fn neg(self) -> (r: Vec3)
        requires
            self.x.raw > i64::MIN,
            self.y.raw > i64::MIN,
            self.z.raw > i64::MIN,
        ensures
            r.x.raw == -self.x.raw,
            r.y.raw == -self.y.raw,
            r.z.raw == -self.z.raw,
    {
        Vec3 { x: self.x.neg(), y: self.y.neg(), z: self.z.neg() }
    }

    /// Componentwise product with a scalar.
    pub fn scale(self, s: Fx) -> (r: Vec3)
        requires
            fits_i64(mul_raw(self.x.raw as int, s.raw as int)),
            fits_i64(mul_raw(self.y.raw as int, s.raw as int)),
            fits_i64(mul_raw(self.z.raw as int, s.raw as int)),
        ensures
            r.x.raw == mul_raw(self.x.raw as int, s.raw as int),
            r.y.raw == mul_raw(self.y.raw as int, s.raw as int),
            r.z.raw == mul_raw(self.z.raw as int, s.raw as int),
    {
        Vec3 { x: self.x.mul(s), y: self.y.mul(s), z: self.z.mul(s) }
    }

    /// Componentwise product of two vectors (used for color attenuation).
    pub fn mul_vec(self, o: Vec3) -> (r: Vec3)
        requires
            fits_i64(mul_raw(self.x.raw as int, o.x.raw as int)),
            fits_i64(mul_raw(self.y.raw as int, o.y.raw as int)),
            fits_i64(mul_raw(self.z.raw as int, o.z.raw as int)),
        ensures
            r.x.raw == mul_raw(self.x.raw as int, o.x.raw as int),
            r.y.raw == mul_raw(self.y.raw as int, o.y.raw as int),
            r.z.raw == mul_raw(self.z.raw as int, o.z.raw as int),
    {
        Vec3 { x: self.x.mul(o.x), y: self.y.mul(o.y), z: self.z.mul(o.z) }
    }

    /// Componentwise quotient by a positive scalar.
    pub fn div_scalar(self, s: Fx) -> (r: Vec3)
        requires
            s.raw > 0,
            fits_i64(div_raw(self.x.raw as int, s.raw as int)),
            fits_i64(div_raw(self.y.raw as int, s.raw as int)),
            fits_i64(div_raw(self.z.raw as int, s.raw as int)),
        ensures
            r.x.raw == div_raw(self.x.raw as int, s.raw as int),
            r.y.raw == div_raw(self.y.raw as int, s.raw as int),
            r.z.raw == div_raw(self.z.raw as int, s.raw as int),
    {
        Vec3 { x: self.x.div(s), y: self.y.div(s), z: self.z.div(s) }
    }

    /// Componentwise quotient by a vector with positive components.
    pub fn div_vec(self, o: Vec3) -> (r: Vec3)
        requires
            o.x.raw > 0,
            o.y.raw > 0,
            o.z.raw > 0,
            fits_i64(div_raw(self.x.raw as int, o.x.raw as int)),
            fits_i64(div_raw(self.y.raw as int, o.y.raw as int)),
            fits_i64(div_raw(self.z.raw as int, o.z.raw as int)),
        ensures
            r.x.raw == div_raw(self.x.raw as int, o.x.raw as int),
            r.y.raw == div_raw(self.y.raw as int, o.y.raw as int),
            r.z.raw == div_raw(self.z.raw as int, o.z.raw as int),
    {
        Vec3 { x: self.x.div(o.x), y: self.y.div(o.y), z: self.z.div(o.z) }
    }

    /// Squared length as a fixed-point number.
    pub fn length_squared(&self) -> (r: Fx)
        requires
            bounded(*self, 0x4000_0000_0000),
            fits_i64(dot_fx_raw(*self, *self)),
        ensures
            r.raw == dot_fx_raw(*self, *self),
            r.raw >= 0,
    {
        let r = dot(self, self);
        proof {
            lemma_dot_self_nonneg(*self);
            lemma_div_pos_is_pos(dot_raw(*self, *self), SCALE as int);
        }
        r
    }

    /// Fixed-point length: the floor square root of the raw dot product.
    pub fn length(&self) -> (r: Fx)
        requires
            bounded(*self, 0x4000_0000_0000),
        ensures
            r.raw == len_raw(*self),
            r.raw >= 0,
    {
        let s = dot_wide(self, self);
        proof {
            lemma_dot_self_nonneg(*self);
            lemma_dot_raw_bound(*self, *self, 0x4000_0000_0000, 0x4000_0000_0000);
            lemma_sqrt_floor(s as int);
            let r = sqrt_floor(s as int);
            if r > 0x1_0000_0000_0000 {
                assert(r * r > s) by (nonlinear_arith)
                    requires
                        r > 0x1_0000_0000_0000,
                        s <= 3 * (0x4000_0000_0000 * 0x4000_0000_0000),
                ;
                assert(false);
            }
        }
        let q = isqrt_u128(s as u128);
        Fx { raw: q as i64 }
    }

    /// The vector scaled to unit length, rounding each component once.
    pub fn normalize(&self) -> (r: Vec3)
        requires
            bounded(*self, 0x4000_0000_0000),
            !is_zero(*self),
        ensures
            r == normalize_spec(*self),
            unit_ish(r),
    {
        let vv = dot_wide(self, self);
        proof {
            lemma_dot_self_nonneg(*self);
            lemma_normalize_props(*self);
        }
        let len = isqrt_u128(vv as u128);
        let lx = floor_div_i128(wide_mul(self.x.raw, SCALE), len as i128);
        let ly = floor_div_i128(wide_mul(self.y.raw, SCALE), len as i128);
        let lz = floor_div_i128(wide_mul(self.z.raw, SCALE), len as i128);
        Vec3 { x: Fx { raw: lx as i64 }, y: Fx { raw: ly as i64 }, z: Fx { raw: lz as i64 } }
    }

    /// Whether the vector is zero at the fixed-point resolution: every
    /// component's magnitude falls below one step.
    pub fn near_zero(&self) -> (r: bool)
        ensures
            r == is_zero(*self),
    {
        self.x.raw == 0 && self.y.raw == 0 && self.z.raw == 0
    }
}

/// Facts that normalization needs: the length is positive, bounds each
/// component, and is itself below twice the largest component's magnitude,
/// so the normalized vector has components within one and is not zero.
proof fn lemma_normalize_props(v: Vec3)
    requires
        bounded(v, 0x4000_0000_0000),
        !is_zero(v),
    ensures
        0 < len_raw(v) <= 0x1_0000_0000_0000,
        -SCALE <= div_raw(v.x.raw as int, len_raw(v)) <= SCALE,
        -SCALE <= div_raw(v.y.raw as int, len_raw(v)) <= SCALE,
        -SCALE <= div_raw(v.z.raw as int, len_raw(v)) <= SCALE,
        unit_ish(normalize_spec(v)),
{
    let vv = dot_raw(v, v);
    let vx = v.x.raw as int;
    let vy = v.y.raw as int;
    let vz = v.z.raw as int;
    lemma_dot_self_nonneg(v);
    lemma_dot_raw_bound(v, v, 0x4000_0000_0000, 0x4000_0000_0000);
    lemma_sqrt_floor(vv);
    let len = len_raw(v);
    assert(vv >= 1) by (nonlinear_arith)
        requires
            !(vx == 0 && vy == 0 && vz == 0),
            vv == vx * vx + vy * vy + vz * vz,
    ;
    assert(sqrt_floor(1) == 1) by {
        assert(is_sqrt_floor_one()) by (nonlinear_arith);
        lemma_sqrt_floor_unique(1, 1);
    }
    lemma_sqrt_floor_is_monotonic(1, vv);
    if len > 0x1_0000_0000_0000 {
        assert(len * len > vv) by (nonlinear_arith)
            requires
                len > 0x1_0000_0000_0000,
                vv <= 3 * (0x4000_0000_0000 * 0x4000_0000_0000),
        ;
        assert(false);
    }
    lemma_norm_comp(vx, vy, vz, vv, len);
    lemma_norm_comp(vy, vx, vz, vv, len);
    lemma_norm_comp(vz, vx, vy, vv, len);
    // at least one component keeps magnitude >= 1 after division
    let m = if vx >= 0 { vx } else { -vx };
    let my = if vy >= 0 { vy } else { -vy };
    let mz = if vz >= 0 { vz } else { -vz };
    let mm = if m >= my && m >= mz { m } else if my >= mz { my } else { mz };
    assert(vv <= 3 * (mm * mm)) by (nonlinear_arith)
        requires
            vv == vx * vx + vy * vy + vz * vz,
            mm >= vx && mm >= -vx && mm >= vy && mm >= -vy && mm >= vz && mm >= -vz,
    ;
    assert(len <= 2 * mm) by {
        if len > 2 * mm {
            assert(len * len > 4 * (mm * mm)) by (nonlinear_arith)
                requires
                    len > 2 * mm,
                    mm >= 0,
            ;
            assert(false);
        }
    }
    assert(mm * SCALE >= len) by (nonlinear_arith)
        requires
            mm >= 1,
            SCALE >= 2,
            len <= 2 * mm,
    ;
    if mm == m {
        lemma_norm_nonzero(vx, vv, len);
    } else if mm == my {
        lemma_norm_nonzero(vy, vv, len);
    } else {
        lemma_norm_nonzero(vz, vv, len);
    }
}

spec fn is_sqrt_floor_one() -> bool {
    crate::fixed::is_sqrt_floor(1, 1)
}

/// A single component divided by the length lies within one unit.
proof fn lemma_norm_comp(a: int, b: int, c: int, vv: int, len: int)
    requires
        vv == a * a + b * b + c * c,
        crate::fixed::is_sqrt_floor(vv, len),
        len >= 1,
    ensures
        -SCALE <= div_raw(a, len) <= SCALE,
{
    assert(a <= len && -a <= len) by (nonlinear_arith)
        requires
            vv == a * a + b * b + c * c,
            len >= 0,
            len * len <= vv,
            (len + 1) * (len + 1) > vv,
    ;
    assert(a * SCALE <= len * SCALE && -(len * SCALE) <= a * SCALE) by (nonlinear_arith)
        requires
            -len <= a <= len,
            SCALE > 0,
    ;
    lemma_div_is_ordered(a * SCALE, len * SCALE, len);
    lemma_div_is_ordered(-(len * SCALE), a * SCALE, len);
    lemma_div_multiples_vanish(SCALE as int, len);
    lemma_div_multiples_vanish(-(SCALE as int), len);
    assert(len * SCALE == len * (SCALE as int)) by (nonlinear_arith);
    assert(-(len * SCALE) == len * (-(SCALE as int))) by (nonlinear_arith);
}

/// A component whose magnitude reaches `len / SCALE` keeps a nonzero quotient.
proof fn lemma_norm_nonzero(a: int, vv: int, len: int)
    requires
        len >= 1,
        a * SCALE >= len || (-a) * SCALE >= len,
        a != 0,
    ensures
        div_raw(a, len) != 0,
{
    if a > 0 {
        assert(a * SCALE >= len) by (nonlinear_arith)
            requires
                a >= 1,
                SCALE >= 1,
                len >= 1,
                a * SCALE >= len || (-a) * SCALE >= len,
        ;
        lemma_div_is_ordered(len, a * SCALE, len);
        lemma_div_multiples_vanish(1, len);
        assert(len == len * 1) by (nonlinear_arith);
        assert(div_raw(a, len) >= 1);
    } else {
        assert((-a) * SCALE >= len) by (nonlinear_arith)
            requires
                a <= -1,
                SCALE >= 1,
                len >= 1,
                a * SCALE >= len || (-a) * SCALE >= len,
        ;
        assert(a * SCALE <= -len) by (nonlinear_arith)
            requires
                (-a) * SCALE >= len,
        ;
        lemma_div_is_ordered(a * SCALE, -len, len);
        lemma_div_multiples_vanish(-1, len);
        assert(-len == len * -1) by (nonlinear_arith);
        assert(div_raw(a, len) <= -1);
    }
}

/// Raw dot product in `i128`, exact.
pub fn dot_wide(a: &Vec3, b: &Vec3) -> (s: i128)
    requires
        bounded(*a, 0x4000_0000_0000),
        bounded(*b, 0x4000_0000_0000),
    ensures
        s == dot_raw(*a, *b),
{
    proof {
        lemma_mul_bound(a.x.raw as int, b.x.raw as int, 0x4000_0000_0000, 0x4000_0000_0000);
        lemma_mul_bound(a.y.raw as int, b.y.raw as int, 0x4000_0000_0000, 0x4000_0000_0000);
        lemma_mul_bound(a.z.raw as int, b.z.raw as int, 0x4000_0000_0000, 0x4000_0000_0000);
    }
    let px = wide_mul(a.x.raw, b.x.raw);
    let py = wide_mul(a.y.raw, b.y.raw);
    let pz = wide_mul(a.z.raw, b.z.raw);
    px + py + pz
}

/// Fixed-point dot product of two vectors, rounded once.
pub fn dot(v1: &Vec3, v2: &Vec3) -> (r: Fx)
    requires
        bounded(*v1, 0x4000_0000_0000),
        bounded(*v2, 0x4000_0000_0000),
        fits_i64(dot_fx_raw(*v1, *v2)),
    ensures
        r.raw == dot_fx_raw(*v1, *v2),
{
    let s = dot_wide(v1, v2);
    let q = floor_div_i128(s, SCALE as i128);
    Fx { raw: q as i64 }
}

/// Cross product, each component rounded once.
pub fn cross(v1: &Vec3, v2: &Vec3) -> (r: Vec3)
    requires
        bounded(*v1, 0x40_0000_0000),
        bounded(*v2, 0x40_0000_0000),
    ensures
        r == cross_spec(*v1, *v2),
        bounded(r, 0x2000_0000_0000_0000),
{
    proof {
        lemma_cross_comp(v1.y.raw as int, v2.z.raw as int, v1.z.raw as int, v2.y.raw as int);
        lemma_cross_comp(v1.z.raw as int, v2.x.raw as int, v1.x.raw as int, v2.z.raw as int);
        lemma_cross_comp(v1.x.raw as int, v2.y.raw as int, v1.y.raw as int, v2.x.raw as int);
    }
    let cx = floor_div_i128(
        wide_mul(v1.y.raw, v2.z.raw) - wide_mul(v1.z.raw, v2.y.raw),
        SCALE as i128,
    );
    let cy = floor_div_i128(
        wide_mul(v1.z.raw, v2.x.raw) - wide_mul(v1.x.raw, v2.z.raw),
        SCALE as i128,
    );
    let cz = floor_div_i128(
        wide_mul(v1.x.raw, v2.y.raw) - wide_mul(v1.y.raw, v2.x.raw),
        SCALE as i128,
    );
    Vec3 { x: Fx { raw: cx as i64 }, y: Fx { raw: cy as i64 }, z: Fx { raw: cz as i64 } }
}

/// The cross product of `a` and `b`, in raw form.
pub open spec fn cross_spec(a: Vec3, b: Vec3) -> Vec3 {
    Vec3 {
        x: Fx { raw: ((a.y.raw * b.z.raw - a.z.raw * b.y.raw) / (SCALE as int)) as i64 },
        y: Fx { raw: ((a.z.raw * b.x.raw - a.x.raw * b.z.raw) / (SCALE as int)) as i64 },
        z: Fx { raw: ((a.x.raw * b.y.raw - a.y.raw * b.x.raw) / (SCALE as int)) as i64 },
    }
}

/// One cross-product component stays within `i128` and, once divided by
/// `SCALE`, within `i64`.
proof fn lemma_cross_comp(p: int, q: int, s: int, t: int)
    requires
        -0x40_0000_0000 <= p <= 0x40_0000_0000,
        -0x40_0000_0000 <= q <= 0x40_0000_0000,
        -0x40_0000_0000 <= s <= 0x40_0000_0000,
        -0x40_0000_0000 <= t <= 0x40_0000_0000,
    ensures
        -0x2000_0000_0000_0000_0000 <= p * q - s * t <= 0x2000_0000_0000_0000_0000,
        -0x2000_0000_0000_0000 <= (p * q - s * t) / (SCALE as int) <= 0x2000_0000_0000_0000,
{
    lemma_mul_bound(p, q, 0x40_0000_0000, 0x40_0000_0000);
    lemma_mul_bound(s, t, 0x40_0000_0000, 0x40_0000_0000);
    lemma_div_is_ordered(p * q - s * t, 0x2000_0000_0000_0000_0000, SCALE as int);
    lemma_div_is_ordered(-0x2000_0000_0000_0000_0000, p * q - s * t, SCALE as int);
    lemma_div_bound(p * q - s * t, SCALE as int, 0x2000_0000_0000_0000_0000);
}

/// Mirror reflection about a normal.
pub fn reflect(v: &Vec3, n: &Vec3) -> (r: Vec3)
    requires
        bounded(*v, DIR_B as int),
        bounded(*n, UNIT_B as int),
    ensures
        r == reflect_spec(*v, *n),
        bounded(r, 0x80_0000_0000),
{
    proof {
        lemma_dot_raw_bound(*v, *n, DIR_B as int, UNIT_B as int);
        lemma_div_is_ordered(dot_raw(*v, *n), 0x3_0000_0000_0000, SCALE as int);
        lemma_div_is_ordered(-0x3_0000_0000_0000, dot_raw(*v, *n), SCALE as int);
    }
    let d = dot(v, n);
    let d2 = Fx { raw: d.raw + d.raw };
    proof {
        lemma_mul_raw_bound(n.x.raw as int, d2.raw as int, UNIT_B as int, 0x6_0000_0000);
        lemma_mul_raw_bound(n.y.raw as int, d2.raw as int, UNIT_B as int, 0x6_0000_0000);
        lemma_mul_raw_bound(n.z.raw as int, d2.raw as int, UNIT_B as int, 0x6_0000_0000);
    }
    let px = n.x.mul(d2);
    let py = n.y.mul(d2);
    let pz = n.z.mul(d2);
    Vec3 { x: v.x.sub(px), y: v.y.sub(py), z: v.z.sub(pz) }
}

/// The componentwise difference `a - b`.
pub open spec fn sub_spec(a: Vec3, b: Vec3) -> Vec3 {
    Vec3 {
        x: Fx { raw: (a.x.raw - b.x.raw) as i64 },
        y: Fx { raw: (a.y.raw - b.y.raw) as i64 },
        z: Fx { raw: (a.z.raw - b.z.raw) as i64 },
    }
}

/// Negating the second operand negates the raw dot product.
pub proof fn lemma_dot_neg(a: Vec3, b: Vec3)
    requires
        b.x.raw > i64::MIN,
        b.y.raw > i64::MIN,
        b.z.raw > i64::MIN,
    ensures
        dot_raw(a, neg_spec(b)) == -dot_raw(a, b),
{
    assert(a.x.raw * ((-b.x.raw) as i64) == -(a.x.raw * b.x.raw)) by (nonlinear_arith)
        requires
            b.x.raw > i64::MIN,
            (-b.x.raw) as i64 == -b.x.raw,
    ;
    assert(a.y.raw * ((-b.y.raw) as i64) == -(a.y.raw * b.y.raw)) by (nonlinear_arith)
        requires
            b.y.raw > i64::MIN,
            (-b.y.raw) as i64 == -b.y.raw,
    ;
    assert(a.z.raw * ((-b.z.raw) as i64) == -(a.z.raw * b.z.raw)) by (nonlinear_arith)
        requires
            b.z.raw > i64::MIN,
            (-b.z.raw) as i64 == -b.z.raw,
    ;
}

/// The componentwise negation of `v`.
pub open spec fn neg_spec(v: Vec3) -> Vec3 {
    Vec3 {
        x: Fx { raw: (-v.x.raw) as i64 },
        y: Fx { raw: (-v.y.raw) as i64 },
        z: Fx { raw: (-v.z.raw) as i64 },
    }
}

/// Snell refraction of the unit direction `uv` at a surface with normal `n`
/// and refraction ratio `e` (a raw fixed-point value): the perpendicular part
/// is `e * (uv + cos * n)` and the parallel part `-sqrt(|1 - |perp|^2|) * n`.
pub open spec fn refract_spec(uv: Vec3, n: Vec3, e: int) -> Vec3 {
    let d = dot_fx_raw(neg_spec(uv), n);
    let cos = if d <= SCALE { d } else { SCALE as int };
    let px = mul_raw(uv.x.raw + mul_raw(n.x.raw as int, cos), e);
    let py = mul_raw(uv.y.raw + mul_raw(n.y.raw as int, cos), e);
    let pz = mul_raw(uv.z.raw + mul_raw(n.z.raw as int, cos), e);
    let perp = Vec3 { x: Fx { raw: px as i64 }, y: Fx { raw: py as i64 }, z: Fx { raw: pz as i64 } };
    let om = SCALE - dot_fx_raw(perp, perp);
    let oma = if om >= 0 { om } else { -om };
    let spar = sqrt_floor(oma * SCALE);
    Vec3 {
        x: Fx { raw: (px + mul_raw(n.x.raw as int, -spar)) as i64 },
        y: Fx { raw: (py + mul_raw(n.y.raw as int, -spar)) as i64 },
        z: Fx { raw: (pz + mul_raw(n.z.raw as int, -spar)) as i64 },
    }
}

/// Refraction of a unit direction about a normal, with the given ratio of
/// refractive indices.
pub fn refract(uv: &Vec3, n: &Vec3, etai_over_etat: Fx) -> (r: Vec3)
    requires
        bounded(*uv, SCALE as int),
        bounded(*n, UNIT_B as int),
        0 < etai_over_etat.raw <= 8 * SCALE,
    ensures
        r == refract_spec(*uv, *n, etai_over_etat.raw as int),
        bounded(r, DIR_B as int),
{
    let mu = uv.neg();
    proof {
        lemma_dot_raw_bound(mu, *n, SCALE as int, UNIT_B as int);
        lemma_div_is_ordered(dot_raw(mu, *n), 0xC_0000_0000, SCALE as int);
        lemma_div_is_ordered(-0xC_0000_0000, dot_raw(mu, *n), SCALE as int);
    }
    let d = dot(&mu, n);
    let cos = d.min(Fx::one());
    proof {
        lemma_mul_raw_bound(n.x.raw as int, cos.raw as int, UNIT_B as int, 0xC0000);
        lemma_mul_raw_bound(n.y.raw as int, cos.raw as int, UNIT_B as int, 0xC0000);
        lemma_mul_raw_bound(n.z.raw as int, cos.raw as int, UNIT_B as int, 0xC0000);
    }
    let pin = uv.add(n.scale(cos));
    proof {
        lemma_mul_raw_bound(pin.x.raw as int, etai_over_etat.raw as int, 0x40_0000, 0x8_0000);
        lemma_mul_raw_bound(pin.y.raw as int, etai_over_etat.raw as int, 0x40_0000, 0x8_0000);
        lemma_mul_raw_bound(pin.z.raw as int, etai_over_etat.raw as int, 0x40_0000, 0x8_0000);
    }
    let perp = pin.scale(etai_over_etat);
    proof {
        lemma_dot_raw_bound(perp, perp, 0x200_0001, 0x200_0001);
        lemma_dot_self_nonneg(perp);
        lemma_div_is_ordered(dot_raw(perp, perp), 0x10_0000_0000_0000, SCALE as int);
        lemma_div_pos_is_pos(dot_raw(perp, perp), SCALE as int);
    }
    let ls = perp.length_squared();
    let om = Fx::one().sub(ls);
    let oma = om.abs();
    proof {
        lemma_sqrt_floor_upper(oma.raw as int * SCALE, 0x800_0000);
    }
    let spar = oma.sqrt();
    proof {
        lemma_mul_raw_bound(n.x.raw as int, -spar.raw as int, UNIT_B as int, 0x800_0000);
        lemma_mul_raw_bound(n.y.raw as int, -spar.raw as int, UNIT_B as int, 0x800_0000);
        lemma_mul_raw_bound(n.z.raw as int, -spar.raw as int, UNIT_B as int, 0x800_0000);
    }
    let par = n.scale(spar.neg());
    perp.add(par)
}

/// The componentwise fixed-point product `a * b`, each channel rounded once.
pub open spec fn mul_vec_spec(a: Vec3, b: Vec3) -> Vec3 {
    Vec3 {
        x: Fx { raw: mul_raw(a.x.raw as int, b.x.raw as int) as i64 },
        y: Fx { raw: mul_raw(a.y.raw as int, b.y.raw as int) as i64 },
        z: Fx { raw: mul_raw(a.z.raw as int, b.z.raw as int) as i64 },
    }
}

/// A point of the open unit disk in the `x`-`y` plane.
pub open spec fn in_unit_disk(p: Vec3) -> bool {
    &&& bounded(p, SCALE as int)
    &&& p.z.raw == 0
    &&& dot_raw(p, p) < SCALE * SCALE
}

/// The componentwise sum `a + b`.
pub open spec fn add_spec(a: Vec3, b: Vec3) -> Vec3 {
    Vec3 {
        x: Fx { raw: (a.x.raw + b.x.raw) as i64 },
        y: Fx { raw: (a.y.raw + b.y.raw) as i64 },
        z: Fx { raw: (a.z.raw + b.z.raw) as i64 },
    }
}

/// Each vector component scaled by the raw factor `s`, rounded once.
pub open spec fn scale_spec(v: Vec3, s: int) -> Vec3 {
    Vec3 {
        x: Fx { raw: mul_raw(v.x.raw as int, s) as i64 },
        y: Fx { raw: mul_raw(v.y.raw as int, s) as i64 },
        z: Fx { raw: mul_raw(v.z.raw as int, s) as i64 },
    }
}

/// Each component of a cross product is bounded by twice the product of the
/// operand bounds, scaled down once.
pub proof fn lemma_cross_bounded(a: Vec3, b: Vec3, aa: int, bb: int)
    requires
        bounded(a, aa),
        bounded(b, bb),
        0 <= aa,
        0 <= bb,
        2 * (aa * bb) / (SCALE as int) + 1 <= i64::MAX,
    ensures
        bounded(cross_spec(a, b), 2 * (aa * bb) / (SCALE as int) + 1),
        -(2 * (aa * bb) / (SCALE as int)) - 1 <= (a.y.raw * b.z.raw - a.z.raw * b.y.raw) / (
        SCALE as int) <= 2 * (aa * bb) / (SCALE as int),
        -(2 * (aa * bb) / (SCALE as int)) - 1 <= (a.z.raw * b.x.raw - a.x.raw * b.z.raw) / (
        SCALE as int) <= 2 * (aa * bb) / (SCALE as int),
        -(2 * (aa * bb) / (SCALE as int)) - 1 <= (a.x.raw * b.y.raw - a.y.raw * b.x.raw) / (
        SCALE as int) <= 2 * (aa * bb) / (SCALE as int),
{
    lemma_cross_comp_bound(a.y.raw as int, b.z.raw as int, a.z.raw as int, b.y.raw as int, aa, bb);
    lemma_cross_comp_bound(a.z.raw as int, b.x.raw as int, a.x.raw as int, b.z.raw as int, aa, bb);
    lemma_cross_comp_bound(a.x.raw as int, b.y.raw as int, a.y.raw as int, b.x.raw as int, aa, bb);
}

proof fn lemma_cross_comp_bound(p: int, q: int, s: int, t: int, aa: int, bb: int)
    requires
        -aa <= p <= aa,
        -bb <= q <= bb,
        -aa <= s <= aa,
        -bb <= t <= bb,
        0 <= aa,
        0 <= bb,
    ensures
        -(2 * (aa * bb) / (SCALE as int)) - 1 <= (p * q - s * t) / (SCALE as int) <= 2 * (aa * bb)
            / (SCALE as int),
{
    lemma_mul_bound(p, q, aa, bb);
    lemma_mul_bound(s, t, aa, bb);
    lemma_div_is_ordered(p * q - s * t, 2 * (aa * bb), SCALE as int);
    lemma_div_is_ordered(-(2 * (aa * bb)), p * q - s * t, SCALE as int);
    lemma_div_pos_is_pos(2 * (aa * bb), SCALE as int);
    crate::fixed::lemma_div_neg(2 * (aa * bb), SCALE as int);
}

/// A zero vector has zero dot product with anything.
pub proof fn lemma_zero_dot(a: Vec3, b: Vec3)
    requires
        is_zero(a),
    ensures
        dot_raw(a, b) == 0,
{
    assert(a.x.raw * b.x.raw == 0) by (nonlinear_arith)
        requires
            a.x.raw == 0,
    ;
    assert(a.y.raw * b.y.raw == 0) by (nonlinear_arith)
        requires
            a.y.raw == 0,
    ;
    assert(a.z.raw * b.z.raw == 0) by (nonlinear_arith)
        requires
            a.z.raw == 0,
    ;
}

/// A nonzero vector has a strictly positive dot product with itself.
pub proof fn lemma_dot_self_pos(v: Vec3)
    requires
        !is_zero(v),
    ensures
        dot_raw(v, v) >= 1,
{
    assert(dot_raw(v, v) >= 1) by (nonlinear_arith)
        requires
            !(v.x.raw == 0 && v.y.raw == 0 && v.z.raw == 0),
            dot_raw(v, v) == v.x.raw * v.x.raw + v.y.raw * v.y.raw + v.z.raw * v.z.raw,
    ;
}

/// The floor-scaled square of any raw value is nonnegative.
pub proof fn lemma_square_div_nonneg(a: int)
    ensures
        0 <= mul_raw(a, a),
{
    assert(a * a >= 0) by (nonlinear_arith);
    lemma_div_pos_is_pos(a * a, SCALE as int);
}

/// A vector with every component drawn from `[min, max)`.
pub fn random_range(min: Fx, max: Fx, rng: &mut RandomSource) -> (r: Vec3)
    requires
        min.raw < max.raw,
        max.raw - min.raw <= i64::MAX,
    ensures
        min.raw <= r.x.raw < max.raw,
        min.raw <= r.y.raw < max.raw,
        min.raw <= r.z.raw < max.raw,
{
    let x = rand_between(min, max, rng);
    let y = rand_between(min, max, rng);
    let z = rand_between(min, max, rng);
    Vec3 { x, y, z }
}

/// A random unit-like vector: a rejection-sampled nonzero point of the unit
/// ball, normalized. After a bounded number of failed draws the fixed unit
/// `z` axis stands in, so every outcome is a unit-like vector.
pub fn random_vec(rng: &mut RandomSource) -> (r: Vec3)
    ensures
        unit_ish(r),
        r == (Vec3 { x: Fx { raw: 0 }, y: Fx { raw: 0 }, z: Fx { raw: SCALE } }) || exists|p: Vec3|
            {
                &&& bounded(p, SCALE as int)
                &&& 0 < dot_raw(p, p) <= SCALE * SCALE
                &&& r == #[trigger] normalize_spec(p)
            },
{
    let lo = Fx { raw: -SCALE };
    let hi = Fx { raw: SCALE };
    let mut k: u32 = 0;
    while k < 64
        invariant
            k <= 64,
            lo.raw == -SCALE,
            hi.raw == SCALE,
        decreases 64 - k,
    {
        let p = random_range(lo, hi, rng);
        let s = dot_wide(&p, &p);
        if 0 < s && s <= 0x1_0000_0000 {
            proof {
                if is_zero(p) {
                    lemma_zero_dot(p, p);
                }
            }
            let r = p.normalize();
            proof {
                assert(bounded(p, SCALE as int) && 0 < dot_raw(p, p) <= SCALE * SCALE && r
                    == normalize_spec(p));
            }
            return r;
        }
        k = k + 1;
    }
    Vec3 { x: Fx { raw: 0 }, y: Fx { raw: 0 }, z: Fx { raw: SCALE } }
}

/// A random point of the unit disk in the `x`-`y` plane, by rejection; the
/// disk center stands in after a bounded number of failed draws.
pub fn rand_in_unit_disk(rng: &mut RandomSource) -> (r: Vec3)
    ensures
        in_unit_disk(r),
        bounded(r, SCALE as int),
        r.z.raw == 0,
        dot_raw(r, r) < SCALE * SCALE,
{
    let lo = Fx { raw: -SCALE };
    let hi = Fx { raw: SCALE };
    let mut k: u32 = 0;
    while k < 64
        invariant
            k <= 64,
            lo.raw == -SCALE,
            hi.raw == SCALE,
        decreases 64 - k,
    {
        let x = rand_between(lo, hi, rng);
        let y = rand_between(lo, hi, rng);
        let p = Vec3 { x, y, z: Fx { raw: 0 } };
        let s = dot_wide(&p, &p);
        if s < 0x1_0000_0000 {
            return p;
        }
        k = k + 1;
    }
    proof {
        assert(0 < SCALE * SCALE) by (nonlinear_arith);
    }
    Vec3 { x: Fx { raw: 0 }, y: Fx { raw: 0 }, z: Fx { raw: 0 } }
}

} // verus!
