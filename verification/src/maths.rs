//! Three-component fixed-point vectors and closed numeric intervals.
//!
//! A `Vec3` is used interchangeably as a point, a direction and a color; each
//! component is a fixed-point scalar (see `fixed`). Componentwise sums are
//! exact; products and quotients rescale with rounding toward zero. Dot
//! products and squared lengths are accumulated exactly in wide arithmetic
//! and rounded once at the end.

use vstd::prelude::*;

use crate::fixed::fdiv;
use crate::fixed::fmul;
use crate::fixed::fx_div;
use crate::fixed::fx_mul;
use crate::fixed::is_sqrt_floor;
use crate::fixed::lemma_fx_div_bound;
use crate::fixed::lemma_mul_bound;
use crate::fixed::lemma_sqrt_floor;
use crate::fixed::lemma_sqrt_floor_unique;
use crate::fixed::sqrt_floor;
use crate::fixed::sqrt_u128;
use crate::fixed::tdiv;
use crate::fixed::FP_ONE;

verus! {

/// A value fits the raw `i64` fixed-point carrier.
pub open spec fn fits_i64(v: int) -> bool {
    i64::MIN <= v <= i64::MAX
}

/// Magnitude bound under which squared lengths and dot products cannot
/// overflow the wide intermediate arithmetic.
pub const FX_LIMIT: i64 = 0x4000_0000_0000_0000;

#[derive(Debug, Clone, Copy, PartialEq, Eq, Structural)]
pub struct Vec3 {
    pub x: i64,
    pub y: i64,
    pub z: i64,
}

/// Points are vectors measured from the world origin.
pub type Point = Vec3;

/// All three components stay below the wide-arithmetic safety bound.
pub open spec fn moderate(v: Vec3) -> bool {
    &&& -FX_LIMIT <= v.x <= FX_LIMIT
    &&& -FX_LIMIT <= v.y <= FX_LIMIT
    &&& -FX_LIMIT <= v.z <= FX_LIMIT
}

/// The exact (unscaled) dot product of the raw components.
pub open spec fn dot_raw(a: Vec3, b: Vec3) -> int {
    a.x * b.x + a.y * b.y + a.z * b.z
}

/// The fixed-point dot product: one rounding after exact accumulation.
pub open spec fn dot_fx(a: Vec3, b: Vec3) -> int {
    tdiv(dot_raw(a, b), 65536)
}

/// The exact sum of the squared raw components.
pub open spec fn norm2_raw(v: Vec3) -> int {
    dot_raw(v, v)
}

/// All components lie within the given magnitude bound.
pub open spec fn vec_in(v: Vec3, bd: int) -> bool {
    &&& -bd <= v.x <= bd
    &&& -bd <= v.y <= bd
    &&& -bd <= v.z <= bd
}

/// Componentwise magnitude bounds bound the exact dot product.
pub proof fn lemma_dot_raw_bound(a: Vec3, b: Vec3, bd_a: int, bd_b: int)
    requires
        vec_in(a, bd_a),
        vec_in(b, bd_b),
        0 <= bd_a,
        0 <= bd_b,
    ensures
        -(3 * (bd_a * bd_b)) <= dot_raw(a, b) <= 3 * (bd_a * bd_b),
{
    lemma_mul_bound(a.x as int, b.x as int, bd_a, bd_b);
    lemma_mul_bound(a.y as int, b.y as int, bd_a, bd_b);
    lemma_mul_bound(a.z as int, b.z as int, bd_a, bd_b);
}

/// `normalized`, as a function of the value: the zero vector stays zero,
/// any other vector is divided by its length.
pub open spec fn normalized_spec(v: Vec3) -> Vec3 {
    if norm2_raw(v) == 0 {
        Vec3 { x: 0i64, y: 0i64, z: 0i64 }
    } else {
        let len = sqrt_floor(norm2_raw(v));
        Vec3 {
            x: fx_div(v.x as int, len) as i64,
            y: fx_div(v.y as int, len) as i64,
            z: fx_div(v.z as int, len) as i64,
        }
    }
}

impl Vec3 {
    pub fn new(x: i64, y: i64, z: i64) -> (r: Self)
        ensures
            r == (Vec3 { x, y, z }),
    {
        Self { x, y, z }
    }

    pub fn zero() -> (r: Self)
        ensures
            r == (Vec3 { x: 0i64, y: 0i64, z: 0i64 }),
    {
        Self::new(0, 0, 0)
    }

    pub fn add(self, other: Self) -> (r: Self)
        requires
            fits_i64(self.x + other.x),
            fits_i64(self.y + other.y),
            fits_i64(self.z + other.z),
        ensures
            r.x == self.x + other.x,
            r.y == self.y + other.y,
            r.z == self.z + other.z,
    {
        Self::new(self.x + other.x, self.y + other.y, self.z + other.z)
    }

    pub fn sub(self, other: Self) -> (r: Self)
        requires
            fits_i64(self.x - other.x),
            fits_i64(self.y - other.y),
            fits_i64(self.z - other.z),
        ensures
            r.x == self.x - other.x,
            r.y == self.y - other.y,
            r.z == self.z - other.z,
    {
        Self::new(self.x - other.x, self.y - other.y, self.z - other.z)
    }

    /// Componentwise fixed-point product.
    pub fn mul(self, other: Self) -> (r: Self)
        requires
            fits_i64(fx_mul(self.x as int, other.x as int)),
            fits_i64(fx_mul(self.y as int, other.y as int)),
            fits_i64(fx_mul(self.z as int, other.z as int)),
        ensures
            r.x == fx_mul(self.x as int, other.x as int),
            r.y == fx_mul(self.y as int, other.y as int),
            r.z == fx_mul(self.z as int, other.z as int),
    {
        Self::new(fmul(self.x, other.x), fmul(self.y, other.y), fmul(self.z, other.z))
    }

    /// Componentwise fixed-point quotient (positive components only).
    pub fn div(self, other: Self) -> (r: Self)
        requires
            other.x > 0,
            other.y > 0,
            other.z > 0,
            fits_i64(fx_div(self.x as int, other.x as int)),
            fits_i64(fx_div(self.y as int, other.y as int)),
            fits_i64(fx_div(self.z as int, other.z as int)),
        ensures
            r.x == fx_div(self.x as int, other.x as int),
            r.y == fx_div(self.y as int, other.y as int),
            r.z == fx_div(self.z as int, other.z as int),
    {
        Self::new(fdiv(self.x, other.x), fdiv(self.y, other.y), fdiv(self.z, other.z))
    }

    /// Broadcast a scalar over all components and add.
    pub fn add_scalar(self, s: i64) -> (r: Self)
        requires
            fits_i64(self.x + s),
            fits_i64(self.y + s),
            fits_i64(self.z + s),
        ensures
            r.x == self.x + s,
            r.y == self.y + s,
            r.z == self.z + s,
    {
        Self::new(self.x + s, self.y + s, self.z + s)
    }

    /// Broadcast a scalar over all components and subtract.
    pub fn sub_scalar(self, s: i64) -> (r: Self)
        requires
            fits_i64(self.x - s),
            fits_i64(self.y - s),
            fits_i64(self.z - s),
        ensures
            r.x == self.x - s,
            r.y == self.y - s,
            r.z == self.z - s,
    {
        Self::new(self.x - s, self.y - s, self.z - s)
    }

    /// Multiply every component by a fixed-point scalar.
    pub fn scale(self, s: i64) -> (r: Self)
        requires
            fits_i64(fx_mul(self.x as int, s as int)),
            fits_i64(fx_mul(self.y as int, s as int)),
            fits_i64(fx_mul(self.z as int, s as int)),
        ensures
            r.x == fx_mul(self.x as int, s as int),
            r.y == fx_mul(self.y as int, s as int),
            r.z == fx_mul(self.z as int, s as int),
    {
        Self::new(fmul(self.x, s), fmul(self.y, s), fmul(self.z, s))
    }

    /// Divide every component by a positive fixed-point scalar.
    pub fn div_scalar(self, s: i64) -> (r: Self)
        requires
            s > 0,
            fits_i64(fx_div(self.x as int, s as int)),
            fits_i64(fx_div(self.y as int, s as int)),
            fits_i64(fx_div(self.z as int, s as int)),
        ensures
            r.x == fx_div(self.x as int, s as int),
            r.y == fx_div(self.y as int, s as int),
            r.z == fx_div(self.z as int, s as int),
    {
        Self::new(fdiv(self.x, s), fdiv(self.y, s), fdiv(self.z, s))
    }

    pub fn neg(self) -> (r: Self)
        requires
            self.x > i64::MIN,
            self.y > i64::MIN,
            self.z > i64::MIN,
        ensures
            r.x == -self.x,
            r.y == -self.y,
            r.z == -self.z,
    {
        Self::new(-self.x, -self.y, -self.z)
    }

    pub fn cross(&self, other: Vec3) -> (r: Vec3)
        requires
            fits_i64(fx_mul(self.y as int, other.z as int)),
            fits_i64(fx_mul(self.z as int, other.y as int)),
            fits_i64(fx_mul(self.z as int, other.x as int)),
            fits_i64(fx_mul(self.x as int, other.z as int)),
            fits_i64(fx_mul(self.x as int, other.y as int)),
            fits_i64(fx_mul(self.y as int, other.x as int)),
            fits_i64(fx_mul(self.y as int, other.z as int) - fx_mul(self.z as int, other.y as int)),
            fits_i64(fx_mul(self.z as int, other.x as int) - fx_mul(self.x as int, other.z as int)),
            fits_i64(fx_mul(self.x as int, other.y as int) - fx_mul(self.y as int, other.x as int)),
        ensures
            r.x == fx_mul(self.y as int, other.z as int) - fx_mul(self.z as int, other.y as int),
            r.y == fx_mul(self.z as int, other.x as int) - fx_mul(self.x as int, other.z as int),
            r.z == fx_mul(self.x as int, other.y as int) - fx_mul(self.y as int, other.x as int),
    {
        Vec3::new(
            fmul(self.y, other.z) - fmul(self.z, other.y),
            fmul(self.z, other.x) - fmul(self.x, other.z),
            fmul(self.x, other.y) - fmul(self.y, other.x),
        )
    }

    pub fn dot(&self, other: Vec3) -> (r: i64)
        requires
            moderate(*self),
            moderate(other),
            fits_i64(dot_fx(*self, other)),
        ensures
            r == dot_fx(*self, other),
    {
        proof {
            lemma_mul_bound(self.x as int, other.x as int, FX_LIMIT as int, FX_LIMIT as int);
            lemma_mul_bound(self.y as int, other.y as int, FX_LIMIT as int, FX_LIMIT as int);
            lemma_mul_bound(self.z as int, other.z as int, FX_LIMIT as int, FX_LIMIT as int);
        }
        let p: i128 = (self.x as i128) * (other.x as i128) + (self.y as i128) * (other.y as i128)
            + (self.z as i128) * (other.z as i128);
        (p / 65536) as i64
    }

    pub fn length_squared(&self) -> (r: i64)
        requires
            moderate(*self),
            fits_i64(tdiv(norm2_raw(*self), 65536)),
        ensures
            r == tdiv(norm2_raw(*self), 65536),
            r >= 0,
    {
        let r = self.dot(*self);
        proof {
            crate::fixed::lemma_tdiv_bounds(norm2_raw(*self), 65536);
            assert(norm2_raw(*self) >= 0) by (nonlinear_arith);
        }
        r
    }

    /// The fixed-point length: the square root of the exact raw square sum.
    pub fn length(&self) -> (r: i64)
        requires
            moderate(*self),
        ensures
            r == sqrt_floor(norm2_raw(*self)),
            r >= 0,
            is_sqrt_floor(norm2_raw(*self), r as int),
    {
        proof {
            lemma_mul_bound(self.x as int, self.x as int, FX_LIMIT as int, FX_LIMIT as int);
            lemma_mul_bound(self.y as int, self.y as int, FX_LIMIT as int, FX_LIMIT as int);
            lemma_mul_bound(self.z as int, self.z as int, FX_LIMIT as int, FX_LIMIT as int);
            assert(norm2_raw(*self) >= 0) by (nonlinear_arith);
        }
        let p: i128 = (self.x as i128) * (self.x as i128) + (self.y as i128) * (self.y as i128)
            + (self.z as i128) * (self.z as i128);
        let root: u128 = sqrt_u128(p as u128);
        proof {
            lemma_sqrt_floor(p as int);
            assert(root < 0x8000000000000000u128) by (nonlinear_arith)
                requires
                    (root as int) * (root as int) <= p as int,
                    p as int <= 0x30000000000000000000000000000000i128 as int,
            ;
        }
        root as i64
    }

    /// Scale to unit length, rounding each component toward zero; the zero
    /// vector is left unchanged (callers that care test for it first).
    pub fn normalized(&self) -> (r: Vec3)
        requires
            moderate(*self),
        ensures
            r == normalized_spec(*self),
            -65536 <= r.x <= 65536,
            -65536 <= r.y <= 65536,
            -65536 <= r.z <= 65536,
    {
        let len = self.length();
        if len == 0 {
            proof {
                assert(norm2_raw(*self) == 0) by (nonlinear_arith)
                    requires
                        is_sqrt_floor(norm2_raw(*self), 0),
                ;
            }
            Vec3::zero()
        } else {
            proof {
                let n2 = norm2_raw(*self);
                assert(n2 != 0) by (nonlinear_arith)
                    requires
                        (len as int) * (len as int) <= n2,
                        len >= 1,
                ;
                assert(self.x * self.x <= n2 && self.y * self.y <= n2 && self.z * self.z <= n2)
                    by (nonlinear_arith)
                    requires
                        n2 == self.x * self.x + self.y * self.y + self.z * self.z,
                ;
                assert(-(len as int) <= self.x <= len as int) by (nonlinear_arith)
                    requires
                        self.x * self.x <= n2,
                        n2 < (len + 1) * (len + 1),
                        len >= 1,
                ;
                assert(-(len as int) <= self.y <= len as int) by (nonlinear_arith)
                    requires
                        self.y * self.y <= n2,
                        n2 < (len + 1) * (len + 1),
                        len >= 1,
                ;
                assert(-(len as int) <= self.z <= len as int) by (nonlinear_arith)
                    requires
                        self.z * self.z <= n2,
                        n2 < (len + 1) * (len + 1),
                        len >= 1,
                ;
                lemma_fx_div_bound(self.x as int, len as int, len as int, len as int);
                lemma_fx_div_bound(self.y as int, len as int, len as int, len as int);
                lemma_fx_div_bound(self.z as int, len as int, len as int, len as int);
                assert((len as int * 65536) / (len as int) == 65536) by (nonlinear_arith)
                    requires
                        len >= 1,
                ;
            }
            Vec3::new(fdiv(self.x, len), fdiv(self.y, len), fdiv(self.z, len))
        }
    }

    /// Linear interpolation `a*(1-t) + b*t` in fixed point.
    pub fn lerp(a: Vec3, b: Vec3, t: i64) -> (r: Vec3)
        requires
            0 <= t <= 65536,
            fits_i64(fx_mul(a.x as int, 65536 - t)),
            fits_i64(fx_mul(a.y as int, 65536 - t)),
            fits_i64(fx_mul(a.z as int, 65536 - t)),
            fits_i64(fx_mul(b.x as int, t as int)),
            fits_i64(fx_mul(b.y as int, t as int)),
            fits_i64(fx_mul(b.z as int, t as int)),
            fits_i64(fx_mul(a.x as int, 65536 - t) + fx_mul(b.x as int, t as int)),
            fits_i64(fx_mul(a.y as int, 65536 - t) + fx_mul(b.y as int, t as int)),
            fits_i64(fx_mul(a.z as int, 65536 - t) + fx_mul(b.z as int, t as int)),
        ensures
            r.x == fx_mul(a.x as int, 65536 - t) + fx_mul(b.x as int, t as int),
            r.y == fx_mul(a.y as int, 65536 - t) + fx_mul(b.y as int, t as int),
            r.z == fx_mul(a.z as int, 65536 - t) + fx_mul(b.z as int, t as int),
    {
        let u: i64 = FP_ONE - t;
        Vec3::new(
            fmul(a.x, u) + fmul(b.x, t),
            fmul(a.y, u) + fmul(b.y, t),
            fmul(a.z, u) + fmul(b.z, t),
        )
    }
}

/// The mirror image of `v` about the plane with normal `n`:
/// `v - n * (2 * dot(v, n))`, for a unit-length `n`.
pub open spec fn reflect_spec(v: Vec3, n: Vec3) -> Vec3 {
    let d = dot_fx(v, n);
    Vec3 {
        x: (v.x - fx_mul(n.x as int, 2 * d)) as i64,
        y: (v.y - fx_mul(n.y as int, 2 * d)) as i64,
        z: (v.z - fx_mul(n.z as int, 2 * d)) as i64,
    }
}

pub fn reflect(v: Vec3, n: Vec3) -> (r: Vec3)
    requires
        moderate(v),
        moderate(n),
        fits_i64(dot_fx(v, n)),
        fits_i64(2 * dot_fx(v, n)),
        fits_i64(fx_mul(n.x as int, 2 * dot_fx(v, n))),
        fits_i64(fx_mul(n.y as int, 2 * dot_fx(v, n))),
        fits_i64(fx_mul(n.z as int, 2 * dot_fx(v, n))),
        fits_i64(v.x - fx_mul(n.x as int, 2 * dot_fx(v, n))),
        fits_i64(v.y - fx_mul(n.y as int, 2 * dot_fx(v, n))),
        fits_i64(v.z - fx_mul(n.z as int, 2 * dot_fx(v, n))),
    ensures
        r == reflect_spec(v, n),
{
    let d: i64 = v.dot(n);
    let k: i64 = 2 * d;
    Vec3::new(v.x - fmul(n.x, k), v.y - fmul(n.y, k), v.z - fmul(n.z, k))
}

/// The normalized vector's components never exceed one unit in magnitude.
pub proof fn lemma_normalized_bounds(v: Vec3)
    ensures
        vec_in(normalized_spec(v), 65536),
{
    let n2 = norm2_raw(v);
    assert(n2 >= 0) by (nonlinear_arith)
        requires
            n2 == v.x * v.x + v.y * v.y + v.z * v.z,
    ;
    if n2 != 0 {
        lemma_sqrt_floor(n2);
        let len = sqrt_floor(n2);
        assert(len >= 1) by (nonlinear_arith)
            requires
                len >= 0,
                n2 > 0,
                n2 < (len + 1) * (len + 1),
        ;
        assert(v.x * v.x <= n2 && v.y * v.y <= n2 && v.z * v.z <= n2) by (nonlinear_arith)
            requires
                n2 == v.x * v.x + v.y * v.y + v.z * v.z,
        ;
        assert(-len <= v.x <= len) by (nonlinear_arith)
            requires
                v.x * v.x <= n2,
                n2 < (len + 1) * (len + 1),
                len >= 1,
        ;
        assert(-len <= v.y <= len) by (nonlinear_arith)
            requires
                v.y * v.y <= n2,
                n2 < (len + 1) * (len + 1),
                len >= 1,
        ;
        assert(-len <= v.z <= len) by (nonlinear_arith)
            requires
                v.z * v.z <= n2,
                n2 < (len + 1) * (len + 1),
                len >= 1,
        ;
        lemma_fx_div_bound(v.x as int, len, len, len);
        lemma_fx_div_bound(v.y as int, len, len, len);
        lemma_fx_div_bound(v.z as int, len, len, len);
        assert((len * 65536) / len == 65536) by (nonlinear_arith)
            requires
                len >= 1,
        ;
    }
}

/// Componentwise negation, as a function of the value.
pub open spec fn neg_spec(v: Vec3) -> Vec3 {
    Vec3 { x: (-v.x) as i64, y: (-v.y) as i64, z: (-v.z) as i64 }
}

/// Componentwise sum, as a function of the values.
pub open spec fn vadd_spec(a: Vec3, b: Vec3) -> Vec3 {
    Vec3 { x: (a.x + b.x) as i64, y: (a.y + b.y) as i64, z: (a.z + b.z) as i64 }
}

/// Componentwise difference, as a function of the values.
pub open spec fn vsub_spec(a: Vec3, b: Vec3) -> Vec3 {
    Vec3 { x: (a.x - b.x) as i64, y: (a.y - b.y) as i64, z: (a.z - b.z) as i64 }
}

/// Componentwise fixed-point scaling, as a function of the values.
pub open spec fn scale_spec(v: Vec3, s: int) -> Vec3 {
    Vec3 {
        x: fx_mul(v.x as int, s) as i64,
        y: fx_mul(v.y as int, s) as i64,
        z: fx_mul(v.z as int, s) as i64,
    }
}

/// The cosine the refraction code works with: the incoming direction is
/// reversed, projected on the normal, and capped at one.
pub open spec fn refract_cos_spec(uv: Vec3, n: Vec3) -> int {
    let d = dot_fx(neg_spec(uv), n);
    if d > 65536 {
        65536
    } else {
        d
    }
}

/// Snell refraction of a unit direction `uv` at a surface with unit normal
/// `n`, decomposed into components perpendicular and parallel to the
/// normal; mirrors the exec arithmetic exactly.
pub open spec fn refract_spec(uv: Vec3, n: Vec3, etai_over_etat: int) -> Vec3 {
    let cos_theta = refract_cos_spec(uv, n);
    let perp = scale_spec(vadd_spec(uv, scale_spec(n, cos_theta)), etai_over_etat);
    let k = 65536 - tdiv(norm2_raw(perp), 65536);
    let m = if k >= 0 {
        k
    } else {
        -k
    };
    let parallel = scale_spec(n, -sqrt_floor(m * 65536));
    vadd_spec(perp, parallel)
}

/// Bend a unit direction through a surface with unit normal `n` by the
/// ratio of refraction indices, by Snell's law.
pub fn refract(uv: Vec3, n: Vec3, etai_over_etat: i64) -> (r: Vec3)
    requires
        vec_in(uv, 65536),
        vec_in(n, 65536),
        0 <= etai_over_etat <= 0x40_0000,
    ensures
        r == refract_spec(uv, n, etai_over_etat as int),
{
    proof {
        lemma_dot_raw_bound(uv, n, 65536, 65536);
        let m = neg_spec(uv);
        assert(m.x == -uv.x && m.y == -uv.y && m.z == -uv.z);
        assert(m.x * n.x + m.y * n.y + m.z * n.z == -(uv.x * n.x + uv.y * n.y + uv.z * n.z))
            by (nonlinear_arith)
            requires
                m.x == -uv.x,
                m.y == -uv.y,
                m.z == -uv.z,
        ;
        crate::fixed::lemma_tdiv_bounds(dot_raw(neg_spec(uv), n), 65536);
    }
    let d: i64 = uv.neg().dot(n);
    let cos_theta: i64 = if d > 65536 {
        65536
    } else {
        d
    };
    proof {
        crate::fixed::lemma_fx_mul_bound(n.x as int, cos_theta as int, 65536, 0x30000);
        crate::fixed::lemma_fx_mul_bound(n.y as int, cos_theta as int, 65536, 0x30000);
        crate::fixed::lemma_fx_mul_bound(n.z as int, cos_theta as int, 65536, 0x30000);
    }
    let lifted: Vec3 = uv.add(n.scale(cos_theta));
    proof {
        crate::fixed::lemma_fx_mul_bound(lifted.x as int, etai_over_etat as int, 0x40000, 0x40_0000);
        crate::fixed::lemma_fx_mul_bound(lifted.y as int, etai_over_etat as int, 0x40000, 0x40_0000);
        crate::fixed::lemma_fx_mul_bound(lifted.z as int, etai_over_etat as int, 0x40000, 0x40_0000);
    }
    let perp: Vec3 = lifted.scale(etai_over_etat);
    proof {
        lemma_dot_raw_bound(perp, perp, 0x100_0000, 0x100_0000);
        crate::fixed::lemma_tdiv_bounds(norm2_raw(perp), 65536);
    }
    let k: i64 = FP_ONE - perp.length_squared();
    let m: i64 = if k >= 0 {
        k
    } else {
        -k
    };
    let s: i64 = crate::fixed::fsqrt(m);
    proof {
        crate::fixed::lemma_sqrt_floor(m * 65536);
        assert(s <= 0x8000_0000) by (nonlinear_arith)
            requires
                (s as int) * (s as int) <= (m as int) * 65536,
                s >= 0,
                m <= 0x4000_0000_0000,
        ;
        crate::fixed::lemma_fx_mul_bound(n.x as int, -s as int, 65536, 0x8000_0000);
        crate::fixed::lemma_fx_mul_bound(n.y as int, -s as int, 65536, 0x8000_0000);
        crate::fixed::lemma_fx_mul_bound(n.z as int, -s as int, 65536, 0x8000_0000);
    }
    let parallel: Vec3 = n.scale(-s);
    perp.add(parallel)
}

/// Mirror law: about an exactly unit normal, the exact (unrounded)
/// reflection makes the opposite projection on the normal: the incoming
/// and reflected directions meet the surface at equal and opposite angles.
/// `reflect_exact` carries the reflection scaled by the squared unit so
/// the statement needs no division.
pub open spec fn reflect_exact(v: Vec3, n: Vec3) -> (int, int, int) {
    (
        v.x * dot_raw(n, n) - 2 * n.x * dot_raw(v, n),
        v.y * dot_raw(n, n) - 2 * n.y * dot_raw(v, n),
        v.z * dot_raw(n, n) - 2 * n.z * dot_raw(v, n),
    )
}

proof fn lemma_mirror_scalar(
    vx: int,
    vy: int,
    vz: int,
    nx: int,
    ny: int,
    nz: int,
    k: int,
    d: int,
)
    requires
        nx * nx + ny * ny + nz * nz == k,
        vx * nx + vy * ny + vz * nz == d,
    ensures
        (vx * k - 2 * nx * d) * nx + (vy * k - 2 * ny * d) * ny + (vz * k - 2 * nz * d) * nz == -(k
            * d),
{
    assert((vx * k - 2 * nx * d) * nx == k * (vx * nx) - 2 * d * (nx * nx)) by (nonlinear_arith);
    assert((vy * k - 2 * ny * d) * ny == k * (vy * ny) - 2 * d * (ny * ny)) by (nonlinear_arith);
    assert((vz * k - 2 * nz * d) * nz == k * (vz * nz) - 2 * d * (nz * nz)) by (nonlinear_arith);
    let a1 = vx * nx;
    let a2 = vy * ny;
    let a3 = vz * nz;
    let b1 = nx * nx;
    let b2 = ny * ny;
    let b3 = nz * nz;
    assert(k * a1 + k * a2 + k * a3 == k * (a1 + a2 + a3)) by (nonlinear_arith);
    assert(2 * d * b1 + 2 * d * b2 + 2 * d * b3 == 2 * d * (b1 + b2 + b3)) by (nonlinear_arith);
    assert(k * d - 2 * d * k == -(k * d)) by (nonlinear_arith);
}

pub proof fn lemma_reflect_mirror(v: Vec3, n: Vec3)
    requires
        dot_raw(n, n) == 65536 * 65536,
    ensures
        reflect_exact(v, n).0 * n.x + reflect_exact(v, n).1 * n.y + reflect_exact(v, n).2 * n.z
            == -(65536 * 65536) * dot_raw(v, n),
{
    lemma_mirror_scalar(
        v.x as int,
        v.y as int,
        v.z as int,
        n.x as int,
        n.y as int,
        n.z as int,
        dot_raw(n, n),
        dot_raw(v, n),
    );
}

/// Matched-index refraction law: with a refraction ratio of one and exactly
/// unit direction and normal, the exact (unrounded) Snell decomposition
/// recombines to the incoming direction: the perpendicular part's squared
/// magnitude leaves exactly the squared cosine for the parallel part, and
/// its square root is the cosine itself, which cancels the lifted normal.
pub proof fn lemma_refract_matched_index(v: Vec3, n: Vec3)
    requires
        dot_raw(v, v) == 65536 * 65536,
        dot_raw(n, n) == 65536 * 65536,
        dot_raw(v, n) <= 0,
    ensures
        ({
            let c = -dot_raw(v, n);
            let px = v.x * (65536 * 65536) + n.x * c;
            let py = v.y * (65536 * 65536) + n.y * c;
            let pz = v.z * (65536 * 65536) + n.z * c;
            &&& px * px + py * py + pz * pz == (65536 * 65536) * ((65536 * 65536) * (65536 * 65536)
                - c * c)
            &&& sqrt_floor(c * c) == c
            &&& px - n.x * sqrt_floor(c * c) == v.x * (65536 * 65536)
            &&& py - n.y * sqrt_floor(c * c) == v.y * (65536 * 65536)
            &&& pz - n.z * sqrt_floor(c * c) == v.z * (65536 * 65536)
        }),
{
    let c = -dot_raw(v, n);
    lemma_perp_scalar(
        v.x as int,
        v.y as int,
        v.z as int,
        n.x as int,
        n.y as int,
        n.z as int,
        65536int * 65536,
        c,
    );
    assert(is_sqrt_floor(c * c, c)) by (nonlinear_arith)
        requires
            c >= 0,
    ;
    lemma_sqrt_floor_unique(c * c, c);
}

proof fn lemma_square_of_sum(v: int, n: int, k: int, c: int)
    ensures
        (v * k + n * c) * (v * k + n * c) == (k * k) * (v * v) + 2 * ((k * c) * (v * n)) + (c * c) * (
        n * n),
{
    let p = v * k;
    let q = n * c;
    assert((p + q) * (p + q) == p * p + 2 * (p * q) + q * q) by (nonlinear_arith);
    assert(p * p == (k * k) * (v * v)) by (nonlinear_arith)
        requires
            p == v * k,
    ;
    assert(p * q == (k * c) * (v * n)) by (nonlinear_arith)
        requires
            p == v * k,
            q == n * c,
    ;
    assert(q * q == (c * c) * (n * n)) by (nonlinear_arith)
        requires
            q == n * c,
    ;
}

proof fn lemma_perp_scalar(
    vx: int,
    vy: int,
    vz: int,
    nx: int,
    ny: int,
    nz: int,
    k: int,
    c: int,
)
    requires
        vx * vx + vy * vy + vz * vz == k,
        nx * nx + ny * ny + nz * nz == k,
        vx * nx + vy * ny + vz * nz == -c,
    ensures
        (vx * k + nx * c) * (vx * k + nx * c) + (vy * k + ny * c) * (vy * k + ny * c) + (vz * k + nz
            * c) * (vz * k + nz * c) == k * (k * k - c * c),
{
    lemma_square_of_sum(vx, nx, k, c);
    lemma_square_of_sum(vy, ny, k, c);
    lemma_square_of_sum(vz, nz, k, c);
    let u1 = vx * vx;
    let u2 = vy * vy;
    let u3 = vz * vz;
    let a1 = vx * nx;
    let a2 = vy * ny;
    let a3 = vz * nz;
    let b1 = nx * nx;
    let b2 = ny * ny;
    let b3 = nz * nz;
    let kk = k * k;
    let kc = k * c;
    let cc = c * c;
    assert(kk * u1 + kk * u2 + kk * u3 == kk * (u1 + u2 + u3)) by (nonlinear_arith);
    assert(2 * (kc * a1) + 2 * (kc * a2) + 2 * (kc * a3) == 2 * (kc * (a1 + a2 + a3)))
        by (nonlinear_arith);
    assert(cc * b1 + cc * b2 + cc * b3 == cc * (b1 + b2 + b3)) by (nonlinear_arith);
    assert((k * k) * k + 2 * ((k * c) * (-c)) + (c * c) * k == k * (k * k - c * c))
        by (nonlinear_arith);
}

/// A closed interval of fixed-point scalars. `i64::MAX` and `i64::MIN` serve
/// as the two infinities.
#[derive(Debug, Clone, Copy, PartialEq, Eq, Structural)]
pub struct Interval {
    pub min: i64,
    pub max: i64,
}

/// Clamp `v` into the interval exactly as the exec code does: raise to `min`
/// first, then cap at `max` (so `max` wins if the interval is inverted).
pub open spec fn clamp_spec(min: int, max: int, v: int) -> int {
    let lifted = if v > min {
        v
    } else {
        min
    };
    if lifted < max {
        lifted
    } else {
        max
    }
}

impl Interval {
    pub fn new(min: i64, max: i64) -> (r: Self)
        ensures
            r == (Interval { min, max }),
    {
        Self { min, max }
    }

    /// The empty interval: below every value and above every value.
    pub fn empty() -> (r: Self)
        ensures
            r == (Interval { min: i64::MAX, max: i64::MIN }),
    {
        Self { min: i64::MAX, max: i64::MIN }
    }

    /// The interval that contains every representable value.
    pub fn universe() -> (r: Self)
        ensures
            r == (Interval { min: i64::MIN, max: i64::MAX }),
    {
        Self { min: i64::MIN, max: i64::MAX }
    }

    pub fn size(&self) -> (r: i64)
        requires
            fits_i64(self.max - self.min),
        ensures
            r == self.max - self.min,
    {
        self.max - self.min
    }

    /// Inclusive membership.
    pub fn contains(&self, value: i64) -> (r: bool)
        ensures
            r == (self.min <= value && value <= self.max),
    {
        value >= self.min && value <= self.max
    }

    /// Strict (exclusive) membership.
    pub fn surrounds(&self, value: i64) -> (r: bool)
        ensures
            r == (self.min < value && value < self.max),
    {
        value > self.min && value < self.max
    }

    pub fn clamp(&self, value: i64) -> (r: i64)
        ensures
            r == clamp_spec(self.min as int, self.max as int, value as int),
            self.min <= self.max ==> self.min <= r <= self.max,
    {
        let lifted: i64 = if value > self.min {
            value
        } else {
            self.min
        };
        if lifted < self.max {
            lifted
        } else {
            self.max
        }
    }
}

impl Default for Interval {
    /// The default interval is unbounded on both sides.
    fn default() -> (r: Self)
        ensures
            r == (Interval { min: i64::MIN, max: i64::MAX }),
    {
        Self::universe()
    }
}

} // verus!
