//! Color output: gamma correction and quantization to 8-bit channels.

use vstd::prelude::*;
use crate::fixed::{div_t, fsqrt_s, sqrt_fixed, SCALE};
use crate::vec3::Vec3;

verus! {

/// An 8-bit channel from a fixed-point channel: scaled by 255 and clamped
/// into `[0, 255]`.
pub open spec fn byte_of_s(c: int) -> int {
    let q = div_t(c * 255, SCALE as int);
    if q < 0 {
        0
    } else if q > 255 {
        255
    } else {
        q
    }
}

/// Gamma correction with exponent one half (gamma 2.0): the componentwise
/// fixed-point square root.
pub fn gamma_correct(vec3: &Vec3) -> (r: Vec3)
    requires
        0 <= vec3.x,
        0 <= vec3.y,
        0 <= vec3.z,
    ensures
        r.m() == (fsqrt_s(vec3.x as int), fsqrt_s(vec3.y as int), fsqrt_s(vec3.z as int)),
        vec3.x <= SCALE ==> r.x <= SCALE,
        vec3.y <= SCALE ==> r.y <= SCALE,
        vec3.z <= SCALE ==> r.z <= SCALE,
        0 <= r.x && 0 <= r.y && 0 <= r.z,
{
    proof {
        gamma_comp_bound(vec3.x as int);
        gamma_comp_bound(vec3.y as int);
        gamma_comp_bound(vec3.z as int);
    }
    Vec3 { x: sqrt_fixed(vec3.x), y: sqrt_fixed(vec3.y), z: sqrt_fixed(vec3.z) }
}

proof fn gamma_comp_bound(c: int)
    requires
        0 <= c,
    ensures
        c <= SCALE as int ==> fsqrt_s(c) <= SCALE as int,
{
    if c <= SCALE as int {
        assert((c * (SCALE as int)) as nat <= 65536nat * 65536nat) by (nonlinear_arith)
            requires 0 <= c <= 65536;
        crate::fixed::lemma_sqrt_floor_le((c * (SCALE as int)) as nat, 65536nat);
    }
}

/// Quantize a color to three 8-bit channels, saturating at the ends.
pub fn convert_vec3_to_color(vec3: Vec3) -> (r: (u8, u8, u8))
    ensures
        r.0 == byte_of_s(vec3.x as int),
        r.1 == byte_of_s(vec3.y as int),
        r.2 == byte_of_s(vec3.z as int),
{
    (byte_channel(vec3.x), byte_channel(vec3.y), byte_channel(vec3.z))
}

fn byte_channel(c: i64) -> (r: u8)
    ensures
        r == byte_of_s(c as int),
{
    let wide = crate::fixed::wide_mul(c, 255);
    proof {
        crate::fixed::lemma_mul_bounds(c as int, 255, 0x8000_0000_0000_0000, 255);
        crate::fixed::lemma_div_t_bound(
            wide as int,
            SCALE as int,
            0x8000_0000_0000_0000int * 255,
        );
    }
    let q = crate::fixed::div_down(wide, 65536);
    if q < 0 {
        0
    } else if q > 255 {
        255
    } else {
        q as u8
    }
}

} // verus!
