//! Gamma encoding of linear-light channels and the conversion to bytes.

use crate::fixed::{
    clamp_raw, lemma_sqrt_floor_is_monotonic, lemma_sqrt_floor_unique, sqrt_floor, Fx, SCALE,
};
use crate::vec3::Vec3;
use vstd::prelude::*;

verus! {

/// Largest channel value that maps below one (just under `0.999`).
pub const CHANNEL_CAP: i64 = 65470;

/// The gamma-2 transform of a linear channel: its fixed-point square root,
/// zero for nonpositive input.
pub open spec fn gamma_spec(c: int) -> int {
    if c > 0 {
        sqrt_floor(c * SCALE)
    } else {
        0
    }
}

/// A gamma-encoded channel scaled to a byte: saturate into `[0, CHANNEL_CAP]`
/// and take the top eight bits.
pub open spec fn byte_spec(c: int) -> int {
    clamp_raw(c, 0, CHANNEL_CAP as int) / 256
}

/// Square-root gamma transform of one linear-light channel.
pub fn linear_to_gamma(linear_component: Fx) -> (r: Fx)
    ensures
        r.raw == gamma_spec(linear_component.raw as int),
        r.raw >= 0,
        linear_component.raw <= SCALE ==> r.raw <= SCALE,
{
    if linear_component.raw > 0 {
        let r = linear_component.sqrt();
        proof {
            if linear_component.raw <= SCALE {
                assert(crate::fixed::is_sqrt_floor(SCALE as int * SCALE, SCALE as int))
                    by (nonlinear_arith);
                lemma_sqrt_floor_unique(SCALE as int * SCALE, SCALE as int);
                lemma_sqrt_floor_is_monotonic(
                    linear_component.raw as int * SCALE,
                    SCALE as int * SCALE,
                );
            }
        }
        r
    } else {
        Fx { raw: 0 }
    }
}

/// Scale a gamma-encoded channel to the byte range.
pub fn channel_to_byte(c: Fx) -> (b: u8)
    ensures
        b as int == byte_spec(c.raw as int),
{
    let clamped = if c.raw < 0 {
        0u64
    } else if c.raw > CHANNEL_CAP {
        CHANNEL_CAP as u64
    } else {
        c.raw as u64
    };
    (clamped / 256) as u8
}

/// Gamma-encode a linear pixel and scale each channel to a byte.
pub fn pixel_to_bytes(pixel: &Vec3) -> (rgb: (u8, u8, u8))
    ensures
        rgb.0 as int == byte_spec(gamma_spec(pixel.x.raw as int)),
        rgb.1 as int == byte_spec(gamma_spec(pixel.y.raw as int)),
        rgb.2 as int == byte_spec(gamma_spec(pixel.z.raw as int)),
{
    let r = channel_to_byte(linear_to_gamma(pixel.x));
    let g = channel_to_byte(linear_to_gamma(pixel.y));
    let b = channel_to_byte(linear_to_gamma(pixel.z));
    (r, g, b)
}

} // verus!
