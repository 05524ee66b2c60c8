//! Colors: a `Vec3` read as red, green, blue in `[0, 1]` fixed point.
//!
//! High-dynamic-range intermediates may leave the unit range; `saturated`
//! clamps them back and `to_rgb8` quantizes a channel to a byte.

use vstd::prelude::*;

use crate::fixed::fsqrt;
use crate::fixed::sqrt_floor;
use crate::fixed::tdiv;
use crate::maths::clamp_spec;
use crate::maths::moderate;
use crate::maths::Vec3;

verus! {

pub type Color = Vec3;

/// Clamp a channel into the fixed-point unit range `[0, 1]`.
pub open spec fn clamp01(v: int) -> int {
    if v < 0 {
        0
    } else if v > 65536 {
        65536
    } else {
        v
    }
}

/// `saturated` applied to every channel.
pub open spec fn saturated_spec(c: Vec3) -> Vec3 {
    Vec3 { x: clamp01(c.x as int) as i64, y: clamp01(c.y as int) as i64, z: clamp01(c.z as int) as i64 }
}

/// `gamma_correction` applied to every channel: the fixed-point square root.
pub open spec fn gamma_spec(c: Vec3) -> Vec3 {
    Vec3 {
        x: sqrt_floor(c.x * 65536) as i64,
        y: sqrt_floor(c.y * 65536) as i64,
        z: sqrt_floor(c.z * 65536) as i64,
    }
}

/// Perceived brightness: the luma weights 0.299, 0.587, 0.114 in fixed point
/// (19595 + 38470 + 7471 = 65536), rounded once.
pub open spec fn brightness_spec(c: Vec3) -> int {
    tdiv(19595 * c.x + 38470 * c.y + 7471 * c.z, 65536)
}

impl Color {
    /// Every channel clamped into the unit range.
    pub fn saturated(&self) -> (r: Color)
        ensures
            r == saturated_spec(*self),
            0 <= r.x <= 65536,
            0 <= r.y <= 65536,
            0 <= r.z <= 65536,
    {
        Color::new(
            if self.x < 0 {
                0
            } else if self.x > 65536 {
                65536
            } else {
                self.x
            },
            if self.y < 0 {
                0
            } else if self.y > 65536 {
                65536
            } else {
                self.y
            },
            if self.z < 0 {
                0
            } else if self.z > 65536 {
                65536
            } else {
                self.z
            },
        )
    }

    /// Gamma correction for storage: the square root of each channel.
    pub fn gamma_correction(color: &Color) -> (r: Color)
        requires
            color.x >= 0,
            color.y >= 0,
            color.z >= 0,
        ensures
            r == gamma_spec(*color),
            r.x >= 0 && r.y >= 0 && r.z >= 0,
            color.x <= 65536 ==> r.x <= 65536,
            color.y <= 65536 ==> r.y <= 65536,
            color.z <= 65536 ==> r.z <= 65536,
    {
        Color::new(fsqrt(color.x), fsqrt(color.y), fsqrt(color.z))
    }

    /// Perceived brightness of the color, as a fixed-point scalar.
    pub fn brightness(&self) -> (r: i64)
        requires
            moderate(*self),
        ensures
            r == brightness_spec(*self),
            0 <= self.x && 0 <= self.y && 0 <= self.z ==> r >= 0,
            0 <= self.x <= 65536 && 0 <= self.y <= 65536 && 0 <= self.z <= 65536 ==> r <= 65536,
    {
        let p: i128 = 19595 * (self.x as i128) + 38470 * (self.y as i128) + 7471 * (self.z as i128);
        proof {
            let s = 19595 * self.x + 38470 * self.y + 7471 * self.z;
            crate::fixed::lemma_tdiv_bounds(s, 65536);
            if 0 <= self.x <= 65536 && 0 <= self.y <= 65536 && 0 <= self.z <= 65536 {
                assert(s <= 65536 * 65536);
            }
        }
        (p / 65536) as i64
    }

    pub fn black() -> (r: Color)
        ensures
            r == (Vec3 { x: 0i64, y: 0i64, z: 0i64 }),
    {
        Color::new(0, 0, 0)
    }

    pub fn white() -> (r: Color)
        ensures
            r == (Vec3 { x: 65536i64, y: 65536i64, z: 65536i64 }),
    {
        Color::new(65536, 65536, 65536)
    }

    pub fn pink() -> (r: Color)
        ensures
            r == (Vec3 { x: 65536i64, y: 0i64, z: 65536i64 }),
    {
        Color::new(65536, 0, 65536)
    }

    /// Quantize for display: clamp each channel just below 1, then keep the
    /// top 8 fractional bits.
    pub fn to_rgb8(&self) -> (r: (u8, u8, u8))
        ensures
            r.0 == clamp_spec(0, 65470, self.x as int) / 256,
            r.1 == clamp_spec(0, 65470, self.y as int) / 256,
            r.2 == clamp_spec(0, 65470, self.z as int) / 256,
    {
        let intensity = crate::maths::Interval::new(0, 65470);
        let qx: i64 = intensity.clamp(self.x);
        let qy: i64 = intensity.clamp(self.y);
        let qz: i64 = intensity.clamp(self.z);
        ((qx / 256) as u8, (qy / 256) as u8, (qz / 256) as u8)
    }
}

/// Brightness stays inside the unit range after clamping, with or without
/// gamma correction: a clamped high-dynamic-range color always quantizes to
/// a valid channel.
pub proof fn lemma_brightness_in_unit_range(c: Vec3)
    ensures
        0 <= brightness_spec(saturated_spec(c)) <= 65536,
        0 <= brightness_spec(gamma_spec(saturated_spec(c))) <= 65536,
{
    let s = saturated_spec(c);
    let g = gamma_spec(s);
    lemma_brightness_bounds(s);
    lemma_sqrt_channel(s.x as int);
    lemma_sqrt_channel(s.y as int);
    lemma_sqrt_channel(s.z as int);
    lemma_brightness_bounds(g);
}

/// Brightness of a unit-range color is itself in the unit range.
proof fn lemma_brightness_bounds(c: Vec3)
    requires
        0 <= c.x <= 65536,
        0 <= c.y <= 65536,
        0 <= c.z <= 65536,
    ensures
        0 <= brightness_spec(c) <= 65536,
{
    let s = 19595 * c.x + 38470 * c.y + 7471 * c.z;
    assert(0 <= s <= 65536 * 65536);
    crate::fixed::lemma_tdiv_bounds(s, 65536);
}

/// The fixed-point square root maps the unit range into the unit range.
proof fn lemma_sqrt_channel(v: int)
    requires
        0 <= v <= 65536,
    ensures
        0 <= sqrt_floor(v * 65536) <= 65536,
{
    crate::fixed::lemma_sqrt_floor(v * 65536);
    let r = sqrt_floor(v * 65536);
    assert(r <= 65536) by (nonlinear_arith)
        requires
            r >= 0,
            r * r <= v * 65536,
            v <= 65536,
    ;
}

} // verus!
