//! Fixed-point trigonometry for the camera: the tangent of half an angle
//! given in degrees, via degree-to-radian conversion and truncated Taylor
//! polynomials for sine and cosine, saturated into `[0, TAN_MAX]`.

use crate::fixed::{
    div_raw, floor_div_i128, lemma_div_bound, lemma_mul_raw_bound, mul_raw, Fx, SCALE,
};
use vstd::prelude::*;

verus! {

/// Radians per degree, in raw fixed-point form (`pi / 180`, rounded).
pub const RAD_PER_DEG: i64 = 1144;

/// Largest representable tangent (four): wider fields of view saturate.
pub const TAN_MAX: i64 = 262144;

/// Truncated Taylor sine: `x - x^3/6 + x^5/120 - x^7/5040`, powers floored
/// stepwise as the code computes them.
pub open spec fn sin_poly(x: int) -> int {
    let x2 = mul_raw(x, x);
    let x3 = mul_raw(x2, x);
    let x5 = mul_raw(mul_raw(x3, x), x);
    let x7 = mul_raw(mul_raw(x5, x), x);
    x - x3 / 6 + x5 / 120 - x7 / 5040
}

/// Truncated Taylor cosine: `1 - x^2/2 + x^4/24 - x^6/720`.
pub open spec fn cos_poly(x: int) -> int {
    let x2 = mul_raw(x, x);
    let x4 = mul_raw(mul_raw(x2, x), x);
    let x6 = mul_raw(mul_raw(x4, x), x);
    SCALE - x2 / 2 + x4 / 24 - x6 / 720
}

/// The tangent of half the angle `deg` (raw degrees): the polynomial sine
/// over the polynomial cosine, saturated into `[0, TAN_MAX]`; a nonpositive
/// cosine saturates outright.
pub open spec fn tan_half_deg_spec(deg: int) -> int {
    let x = mul_raw(deg / 2, RAD_PER_DEG as int);
    let s = sin_poly(x);
    let c = cos_poly(x);
    if c <= 0 {
        TAN_MAX as int
    } else {
        let t = div_raw(s, c);
        if t < 0 {
            0
        } else if t > TAN_MAX {
            TAN_MAX as int
        } else {
            t
        }
    }
}

/// Tangent of half an angle given in degrees, saturated into `[0, TAN_MAX]`.
pub fn tan_half_deg(deg: Fx) -> (r: Fx)
    requires
        0 <= deg.raw < 180 * SCALE,
    ensures
        r.raw == tan_half_deg_spec(deg.raw as int),
        0 <= r.raw <= TAN_MAX,
{
    let half = Fx { raw: ((deg.raw as u64) / 2) as i64 };
    let x = half.mul(Fx { raw: RAD_PER_DEG });
    proof {
        lemma_mul_raw_bound(half.raw as int, RAD_PER_DEG as int, 90 * SCALE as int, RAD_PER_DEG as int);
        assert(half.raw as int * RAD_PER_DEG >= 0) by (nonlinear_arith)
            requires
                half.raw >= 0,
        ;
        vstd::arithmetic::div_mod::lemma_div_pos_is_pos(
            half.raw as int * RAD_PER_DEG,
            SCALE as int,
        );
        lemma_powers_bounded(x.raw as int);
    }
    let x2 = x.mul(x);
    let x3 = x2.mul(x);
    let x4 = x3.mul(x);
    let x5 = x4.mul(x);
    let x6 = x5.mul(x);
    let x7 = x6.mul(x);
    let s = Fx {
        raw: x.raw - div_exact(x3.raw, 6) + div_exact(x5.raw, 120) - div_exact(x7.raw, 5040),
    };
    let c = Fx {
        raw: SCALE - div_exact(x2.raw, 2) + div_exact(x4.raw, 24) - div_exact(x6.raw, 720),
    };
    if c.raw <= 0 {
        Fx { raw: TAN_MAX }
    } else {
        proof {
            lemma_div_bound(s.raw as int * SCALE, c.raw as int, 0x80_0000_0000_0000);
        }
        let t = s.div(c);
        if t.raw < 0 {
            Fx { raw: 0 }
        } else if t.raw > TAN_MAX {
            Fx { raw: TAN_MAX }
        } else {
            t
        }
    }
}

/// Floor quotient of a bounded raw value by a small positive constant.
fn div_exact(a: i64, k: i64) -> (q: i64)
    requires
        k > 0,
        -0x4000_0000_0000_0000 <= a <= 0x4000_0000_0000_0000,
    ensures
        q == a as int / k as int,
        a >= 0 ==> 0 <= q <= a,
{
    proof {
        lemma_div_bound(a as int, k as int, 0x4000_0000_0000_0000);
        if a >= 0 {
            vstd::arithmetic::div_mod::lemma_div_pos_is_pos(a as int, k as int);
            vstd::arithmetic::div_mod::lemma_div_nonincreasing(a as int, k as int);
        }
    }
    floor_div_i128(a as i128, k as i128) as i64
}

/// Every stepwise power of an angle below `pi` in fixed form stays small.
proof fn lemma_powers_bounded(x: int)
    requires
        0 <= x <= 0x2_0000,
    ensures
        0 <= mul_raw(x, x) <= 0x4_0000,
        0 <= mul_raw(mul_raw(x, x), x) <= 0x8_0000,
        0 <= mul_raw(mul_raw(mul_raw(x, x), x), x) <= 0x10_0000,
        0 <= mul_raw(mul_raw(mul_raw(mul_raw(x, x), x), x), x) <= 0x20_0000,
        0 <= mul_raw(mul_raw(mul_raw(mul_raw(mul_raw(x, x), x), x), x), x) <= 0x40_0000,
        0 <= mul_raw(mul_raw(mul_raw(mul_raw(mul_raw(mul_raw(x, x), x), x), x), x), x) <= 0x80_0000,
{
    lemma_pow_step(x, x, 0x2_0000, 0x4_0000);
    lemma_pow_step(mul_raw(x, x), x, 0x4_0000, 0x8_0000);
    lemma_pow_step(mul_raw(mul_raw(x, x), x), x, 0x8_0000, 0x10_0000);
    lemma_pow_step(mul_raw(mul_raw(mul_raw(x, x), x), x), x, 0x10_0000, 0x20_0000);
    lemma_pow_step(mul_raw(mul_raw(mul_raw(mul_raw(x, x), x), x), x), x, 0x20_0000, 0x40_0000);
    lemma_pow_step(mul_raw(mul_raw(mul_raw(mul_raw(mul_raw(x, x), x), x), x), x), x, 0x40_0000, 0x80_0000);
}

/// One power step: a nonnegative bounded product by an angle below two
/// stays nonnegative and at most doubles the bound.
proof fn lemma_pow_step(a: int, x: int, ab: int, rb: int)
    requires
        0 <= a <= ab,
        0 <= x <= 0x2_0000,
        2 * ab <= rb,
    ensures
        0 <= mul_raw(a, x) <= rb,
{
    assert(0 <= a * x <= ab * 0x2_0000) by (nonlinear_arith)
        requires
            0 <= a <= ab,
            0 <= x <= 0x2_0000,
    ;
    vstd::arithmetic::div_mod::lemma_div_pos_is_pos(a * x, SCALE as int);
    vstd::arithmetic::div_mod::lemma_div_is_ordered(a * x, ab * 0x2_0000, SCALE as int);
    assert(ab * 0x2_0000 / (SCALE as int) == 2 * ab) by (nonlinear_arith)
        requires
            SCALE == 65536,
    ;
}

} // verus!
