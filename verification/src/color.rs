//! Conversion of linear radiance into display-ready 8-bit color: averaging
//! over samples, square-root gamma correction, clamping and quantization,
//! all in exact fixed-point arithmetic.

use vstd::prelude::*;

use crate::fixed::{
    fxm, lemma_quot_bracket, lemma_quot_exact, lemma_quot_mono, lemma_sqrt_mono, lemma_sqrt_square,
    quot, sqrt_floor, FX_ONE,
};
use crate::interval::Interval;
use crate::vec3::Vec3;

verus! {

/// Raw fixed-point value of 255.999, the single-sample channel scale.
pub const COLOR_BASE: i64 = 16777150;

/// Raw fixed-point value of 0.999, the upper clamp of the sampled pipeline.
pub const INTENSITY_CAP: i64 = 65470;

/// Newtype to make it clear we are working with an (RGB) color.
pub struct Color(pub Vec3);

/// Color composed of multiple samples
pub struct SampledColor {
    pub color: Vec3,
    pub samples: usize,
}

/// One display-ready pixel.
#[derive(Clone, Copy, Debug, PartialEq, Eq, Structural)]
pub struct Rgb {
    pub r: u8,
    pub g: u8,
    pub b: u8,
}

/// Gamma correction by square root: the fixed-point square root of a linear
/// channel value.
pub open spec fn gamma_of(x: int) -> int {
    sqrt_floor(x * FX_ONE)
}

/// Saturation of an integer into `[0, 255]`.
pub open spec fn sat255(v: int) -> int {
    if v < 0 {
        0
    } else if v > 255 {
        255
    } else {
        v
    }
}

/// The single-sample (no anti-aliasing) channel encoding: scale the linear
/// value by 255.999 and truncate, saturating into `[0, 255]`.
pub open spec fn single_channel(x: int) -> int {
    sat255(quot(fxm(x, COLOR_BASE as int), FX_ONE as int))
}

/// The sampled channel encoding: average the accumulated sum over `n`
/// samples, gamma-correct, clamp into `[0, 0.999]` and quantize by 256.
pub open spec fn sampled_channel(sum: int, n: int) -> int {
    let avg = quot(sum, n);
    let g = gamma_of(avg);
    let cl = if g < 0 {
        0int
    } else if g > INTENSITY_CAP {
        INTENSITY_CAP as int
    } else {
        g
    };
    cl / 256
}

impl From<Vec3> for Color {
    fn from(value: Vec3) -> (r: Self) {
        Color(value)
    }
}

impl vstd::std_specs::convert::FromSpecImpl<Vec3> for Color {
    open spec fn obeys_from_spec() -> bool {
        true
    }

    open spec fn from_spec(v: Vec3) -> Color {
        Color(v)
    }
}

impl Color {
    /// The translated rgb value of each color component, in `[0, 255]`.
    pub fn rgb(&self) -> (r: Rgb)
        requires
            -0x100_0000_0000_0000 <= self.0.x <= 0x100_0000_0000_0000,
            -0x100_0000_0000_0000 <= self.0.y <= 0x100_0000_0000_0000,
            -0x100_0000_0000_0000 <= self.0.z <= 0x100_0000_0000_0000,
        ensures
            r.r == single_channel(self.0.x as int),
            r.g == single_channel(self.0.y as int),
            r.b == single_channel(self.0.z as int),
    {
        Rgb {
            r: single_channel_exec(self.0.x),
            g: single_channel_exec(self.0.y),
            b: single_channel_exec(self.0.z),
        }
    }
}

impl SampledColor {
    /// Create a new SampledColor
    pub fn new(color: Vec3, samples: usize) -> (r: Self)
        ensures
            r.color == color,
            r.samples == samples,
    {
        SampledColor { color, samples }
    }

    /// The accumulated color is a sum of nonnegative per-sample radiance
    /// values, one per sample.
    pub open spec fn wf(self) -> bool {
        &&& 1 <= self.samples
        &&& 0 <= self.color.x
        &&& 0 <= self.color.y
        &&& 0 <= self.color.z
    }

    /// The translated rgb value of each averaged, gamma-corrected, clamped
    /// color component, in `[0, 255]`.
    pub fn rgb(&self) -> (r: Rgb)
        requires
            self.wf(),
        ensures
            r.r == sampled_channel(self.color.x as int, self.samples as int),
            r.g == sampled_channel(self.color.y as int, self.samples as int),
            r.b == sampled_channel(self.color.z as int, self.samples as int),
    {
        Rgb {
            r: sampled_channel_exec(self.color.x, self.samples),
            g: sampled_channel_exec(self.color.y, self.samples),
            b: sampled_channel_exec(self.color.z, self.samples),
        }
    }
}

/// Executable single-sample channel encoding.
fn single_channel_exec(x: i64) -> (r: u8)
    requires
        -0x100_0000_0000_0000 <= x <= 0x100_0000_0000_0000,
    ensures
        r == single_channel(x as int),
{
    let wide: i128 = crate::fixed::fx_mul_wide(x, COLOR_BASE);
    proof {
        crate::fixed::lemma_fxm_bound(
            x as int,
            COLOR_BASE as int,
            0x100_0000_0000_0000,
            0x100_0000,
        );
    }
    let v: i128 = crate::fixed::quot_i128(wide, 65536);
    if v < 0 {
        0
    } else if v > 255 {
        255
    } else {
        v as u8
    }
}

/// Executable sampled channel encoding.
fn sampled_channel_exec(sum: i64, n: usize) -> (r: u8)
    requires
        0 <= sum,
        1 <= n,
    ensures
        r == sampled_channel(sum as int, n as int),
{
    let avg: u64 = (sum as u64) / (n as u64);
    proof {
        vstd::arithmetic::div_mod::lemma_div_nonincreasing(sum as int, n as int);
        vstd::arithmetic::div_mod::lemma_div_pos_is_pos(sum as int, n as int);
        assert(avg as int == quot(sum as int, n as int));
    }
    let g: i64 = crate::fixed::fx_sqrt(avg as i64);
    let intensity = Interval::new(0, INTENSITY_CAP);
    let cl: i64 = intensity.clamp(g);
    proof {
        assert(cl / 256 == quot(cl as int, 256));
    }
    let q: i64 = ((cl as u64) / 256) as i64;
    q as u8
}

/// Averaging `n` identical nonnegative samples reproduces exactly the
/// single-sample result of the same pipeline.
pub proof fn lemma_sample_average_reproduces_single(c: Vec3, n: int)
    requires
        1 <= n,
    ensures
        sampled_channel(c.x * n, n) == sampled_channel(c.x as int, 1),
        sampled_channel(c.y * n, n) == sampled_channel(c.y as int, 1),
        sampled_channel(c.z * n, n) == sampled_channel(c.z as int, 1),
{
    lemma_quot_exact(c.x as int, n);
    lemma_quot_exact(c.y as int, n);
    lemma_quot_exact(c.z as int, n);
    lemma_quot_exact(c.x as int, 1);
    lemma_quot_exact(c.y as int, 1);
    lemma_quot_exact(c.z as int, 1);
}

/// A linear value of zero is discretized to zero.
pub proof fn lemma_zero_maps_to_zero()
    ensures
        sampled_channel(0, 1) == 0,
{
    lemma_quot_exact(0, 1);
    lemma_sqrt_square(0);
}

/// A linear value at or above the clamp cap (0.999) is discretized to 255.
pub proof fn lemma_cap_maps_to_max(x: int)
    requires
        INTENSITY_CAP <= x,
    ensures
        sampled_channel(x, 1) == 255,
{
    lemma_quot_exact(x, 1);
    lemma_sqrt_square(INTENSITY_CAP as int);
    assert((INTENSITY_CAP as int) * (INTENSITY_CAP as int) <= x * FX_ONE);
    lemma_sqrt_mono((INTENSITY_CAP as int) * (INTENSITY_CAP as int), x * FX_ONE);
    assert(gamma_of(x) >= INTENSITY_CAP);
    assert(65470int / 256 == 255) by {
        vstd::arithmetic::div_mod::lemma_fundamental_div_mod(65470, 256);
        assert(65470int == 256 * 255 + 190);
    }
}

/// Discretization is monotone, non-decreasing in the linear input.
pub proof fn lemma_channel_monotone(x1: int, x2: int, n: int)
    requires
        0 <= x1 <= x2,
        1 <= n,
    ensures
        sampled_channel(x1, n) <= sampled_channel(x2, n),
{
    lemma_quot_mono(x1, x2, n);
    lemma_quot_bracket(x1, n);
    let a1 = quot(x1, n);
    let a2 = quot(x2, n);
    lemma_sqrt_mono(a1 * FX_ONE, a2 * FX_ONE);
    let g1 = gamma_of(a1);
    let g2 = gamma_of(a2);
    let cl1: int = if g1 < 0 {
        0int
    } else if g1 > INTENSITY_CAP {
        INTENSITY_CAP as int
    } else {
        g1
    };
    let cl2: int = if g2 < 0 {
        0int
    } else if g2 > INTENSITY_CAP {
        INTENSITY_CAP as int
    } else {
        g2
    };
    vstd::arithmetic::div_mod::lemma_div_is_ordered(cl1, cl2, 256);
}

} // verus!
