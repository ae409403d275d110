//! Eight-bit colors, and their moves on and off the fixed-point grid:
//! normalization into `[0, 1]` channels and gamma-corrected quantization
//! of accumulated radiance.

use vstd::prelude::*;

verus! {

use crate::FP_ONE;
use crate::num::{tdiv, sqrt_floor, div_i64, isqrt_u128};
use crate::utils::vector::Vec3;

#[derive(Clone, Copy, Debug, PartialEq, Eq, Structural)]
pub struct Color {
    pub r: u8,
    pub g: u8,
    pub b: u8,
}

/// One channel normalized onto the fixed-point grid: `c / 255`.
pub open spec fn chan_fx(c: int) -> int {
    tdiv(c * FP_ONE, 255)
}

/// One averaged radiance channel, gamma corrected (square root) and
/// quantized back to eight bits.
pub open spec fn quantize_spec(v: int, samples: int) -> int {
    let avg = if tdiv(v, samples) > 0 {
        tdiv(v, samples)
    } else {
        0
    };
    let root = sqrt_floor(avg * FP_ONE);
    let scaled = tdiv(root * 255, FP_ONE as int);
    if scaled > 255 {
        255
    } else {
        scaled
    }
}

impl Color {
    pub fn rgb(r: u8, g: u8, b: u8) -> (c: Color)
        ensures
            c == (Color { r, g, b }),
    {
        Color { r, g, b }
    }

    pub fn black() -> (c: Color)
        ensures
            c == (Color { r: 0u8, g: 0u8, b: 0u8 }),
    {
        Color { r: 0, g: 0, b: 0 }
    }

    /// The color's channels as fixed-point fractions of full intensity,
    /// each within `[0, FP_ONE]`.
    pub fn normalize(self) -> (v: Vec3)
        ensures
            v.x == chan_fx(self.r as int),
            v.y == chan_fx(self.g as int),
            v.z == chan_fx(self.b as int),
            0 <= v.x <= FP_ONE,
            0 <= v.y <= FP_ONE,
            0 <= v.z <= FP_ONE,
    {
        proof {
            crate::num::lemma_tdiv_scale_le(self.r as int, FP_ONE as int, 255);
            crate::num::lemma_tdiv_scale_le(self.g as int, FP_ONE as int, 255);
            crate::num::lemma_tdiv_scale_le(self.b as int, FP_ONE as int, 255);
        }
        Vec3::new(
            div_i64((self.r as i64) * FP_ONE, 255),
            div_i64((self.g as i64) * FP_ONE, 255),
            div_i64((self.b as i64) * FP_ONE, 255),
        )
    }

    /// Average the accumulated radiance over the sample count, apply the
    /// square-root gamma, and clamp each channel to eight bits.
    pub fn to_u8(color_vec: Vec3, samples: usize) -> (c: Color)
        requires
            0 < samples,
            samples <= 0x1000_0000,
            crate::utils::vector::bounded(color_vec, 0x2000_0000_0000_0000),
        ensures
            c.r == quantize_spec(color_vec.x as int, samples as int),
            c.g == quantize_spec(color_vec.y as int, samples as int),
            c.b == quantize_spec(color_vec.z as int, samples as int),
    {
        Color {
            r: quantize_channel(color_vec.x, samples),
            g: quantize_channel(color_vec.y, samples),
            b: quantize_channel(color_vec.z, samples),
        }
    }
}

fn quantize_channel(v: i64, samples: usize) -> (c: u8)
    requires
        0 < samples,
        samples <= 0x1000_0000,
        -0x2000_0000_0000_0000 <= v <= 0x2000_0000_0000_0000,
    ensures
        c == quantize_spec(v as int, samples as int),
{
    let avg_raw = div_i64(v, samples as i64);
    let avg: i64 = if avg_raw > 0 {
        avg_raw
    } else {
        0
    };
    proof {
        crate::num::lemma_tdiv_bound(v as int, samples as int);
        crate::num::lemma_mul_abs_bound(avg as int, FP_ONE as int, 0x8000_0000_0000_0000, FP_ONE as int);
        assert(avg * FP_ONE >= 0) by (nonlinear_arith)
            requires avg >= 0;
    }
    let root_u = isqrt_u128((avg as u128) * (FP_ONE as u128));
    proof {
        lemma_root_small(avg as int * FP_ONE as int, root_u as int);
    }
    let root: i64 = root_u as i64;
    let scaled: i64 = div_i64(root * 255, FP_ONE);
    if scaled > 255 {
        255
    } else {
        proof {
            crate::num::lemma_tdiv_bound(root as int * 255, FP_ONE as int);
            crate::num::lemma_mul_abs_bound(root as int, 255, 0x8000_0000_0000, 255);
            assert(root * 255 >= 0) by (nonlinear_arith)
                requires root >= 0;
            assert(tdiv(root as int * 255, FP_ONE as int) >= 0);
        }
        scaled as u8
    }
}

/// The square root of a value under `2^80` fits comfortably in `i64`.
proof fn lemma_root_small(n: int, c: int)
    requires
        0 <= n <= 0x1_0000_0000_0000_0000_0000,
        crate::num::is_sqrt_floor(n, c),
    ensures
        0 <= c <= 0x1_0000_0000_0000,
{
    if c > 0x1_0000_0000_0000 {
        assert(c * c > 0x1_0000_0000_0000int * 0x1_0000_0000_0000int) by (nonlinear_arith)
            requires c > 0x1_0000_0000_0000;
        assert(false);
    }
}

} // verus!
