//! Randomness for the Monte-Carlo sampler.
//!
//! All randomness enters through one call into the process-wide generator;
//! everything derived from it (unit-interval scalars, ranges, directions on
//! the unit sphere) is computed here in verified fixed-point arithmetic.
//! Nothing is promised of the sampled values beyond their ranges, so every
//! consumer must be correct for every outcome.

use vstd::prelude::*;

use crate::fixed::fx_div;
use crate::fixed::is_sqrt_floor;
use crate::fixed::lemma_tdiv_bounds;
use crate::fixed::lemma_tdiv_neg;
use crate::fixed::sqrt_floor;
use crate::fixed::tdiv;
use crate::maths::dot_fx;
use crate::maths::dot_raw;
use crate::maths::neg_spec;
use crate::maths::norm2_raw;
use crate::maths::normalized_spec;
use crate::maths::vec_in;
use crate::maths::Vec3;

verus! {

/// Relies on rand::random: one sample of the Standard distribution from the
/// thread-local generator. Nothing can be promised of the value.
pub assume_specification<T>[ rand::random::<T> ]() -> (r: T)
    where
        rand::distributions::Standard: rand::distributions::Distribution<T>,
;

/// A random fixed-point scalar in `[0, 1)`.
pub fn random_double() -> (r: i64)
    ensures
        0 <= r < 65536,
{
    let v: u64 = rand::random::<u64>();
    (v % 65536) as i64
}

/// A random fixed-point scalar in `[min, max)`.
pub fn random_double_range(min: i64, max: i64) -> (r: i64)
    requires
        min < max,
        max - min <= i64::MAX,
    ensures
        min <= r < max,
{
    let span: u64 = (max - min) as u64;
    let v: u64 = rand::random::<u64>() % span;
    min + (v as i64)
}

/// A random color-like vector with components in `[0, 1)`.
pub fn random_vec3() -> (r: Vec3)
    ensures
        vec_in(r, 65536),
        r.x >= 0 && r.y >= 0 && r.z >= 0,
{
    Vec3::new(random_double(), random_double(), random_double())
}

/// A random vector with components in `[min, max)`.
pub fn random_vec3_min_max(min: i64, max: i64) -> (r: Vec3)
    requires
        min < max,
        max - min <= i64::MAX,
    ensures
        min <= r.x < max,
        min <= r.y < max,
        min <= r.z < max,
{
    Vec3::new(
        random_double_range(min, max),
        random_double_range(min, max),
        random_double_range(min, max),
    )
}

/// The largest component of a nonzero vector normalizes to at least half
/// a unit, so the normalized vector's squared norm is at least a quarter.
proof fn lemma_normalized_component(vi: int, n2: int, len: int)
    requires
        3 * (vi * vi) >= n2,
        is_sqrt_floor(n2, len),
        n2 > 0,
        len >= 1,
    ensures
        fx_div(vi, len) * fx_div(vi, len) >= 0x4000_0000,
{
    let m = if vi >= 0 {
        vi
    } else {
        -vi
    };
    assert(m * m == vi * vi) by (nonlinear_arith)
        requires
            m == vi || m == -vi,
    ;
    assert(2 * m >= len) by (nonlinear_arith)
        requires
            3 * (m * m) >= n2,
            len * len <= n2,
            m >= 0,
            len >= 1,
    ;
    let q = tdiv(m * 65536, len);
    lemma_tdiv_bounds(m * 65536, len);
    assert(q >= 32768) by (nonlinear_arith)
        requires
            m * 65536 < len * q + len,
            2 * m >= len,
            len >= 1,
            q >= 0,
    ;
    lemma_tdiv_neg(m * 65536, len);
    assert(vi * 65536 == m * 65536 || vi * 65536 == -(m * 65536)) by (nonlinear_arith)
        requires
            m == vi || m == -vi,
    ;
    assert(fx_div(vi, len) == q || fx_div(vi, len) == -q);
    assert(q * q >= 0x4000_0000 && (-q) * (-q) >= 0x4000_0000) by (nonlinear_arith)
        requires
            q >= 32768,
    ;
}

/// A normalized nonzero vector keeps at least a quarter of the unit
/// squared norm: its largest component alone accounts for it.
proof fn lemma_normalized_norm_floor(v: Vec3)
    requires
        norm2_raw(v) > 0,
    ensures
        norm2_raw(normalized_spec(v)) >= 0x4000_0000,
{
    let n2 = norm2_raw(v);
    crate::fixed::lemma_sqrt_floor(n2);
    let len = sqrt_floor(n2);
    assert(len >= 1) by (nonlinear_arith)
        requires
            len >= 0,
            n2 > 0,
            n2 < (len + 1) * (len + 1),
    ;
    let u = normalized_spec(v);
    // the pre-cast quotients stay within one unit, so the casts are exact
    assert(v.x * v.x <= n2 && v.y * v.y <= n2 && v.z * v.z <= n2) by (nonlinear_arith)
        requires
            n2 == v.x * v.x + v.y * v.y + v.z * v.z,
    ;
    assert(-len <= v.x <= len && -len <= v.y <= len && -len <= v.z <= len) by (nonlinear_arith)
        requires
            v.x * v.x <= n2,
            v.y * v.y <= n2,
            v.z * v.z <= n2,
            n2 < (len + 1) * (len + 1),
            len >= 1,
    ;
    crate::fixed::lemma_fx_div_bound(v.x as int, len, len, len);
    crate::fixed::lemma_fx_div_bound(v.y as int, len, len, len);
    crate::fixed::lemma_fx_div_bound(v.z as int, len, len, len);
    assert((len * 65536) / len == 65536) by (nonlinear_arith)
        requires
            len >= 1,
    ;
    assert(u.x == fx_div(v.x as int, len) && u.y == fx_div(v.y as int, len) && u.z == fx_div(
        v.z as int,
        len,
    ));
    assert(3 * (v.x * v.x) >= n2 || 3 * (v.y * v.y) >= n2 || 3 * (v.z * v.z) >= n2)
        by (nonlinear_arith)
        requires
            n2 == v.x * v.x + v.y * v.y + v.z * v.z,
    ;
    assert(u.x * u.x >= 0 && u.y * u.y >= 0 && u.z * u.z >= 0) by (nonlinear_arith);
    if 3 * (v.x * v.x) >= n2 {
        lemma_normalized_component(v.x as int, n2, len);
    } else if 3 * (v.y * v.y) >= n2 {
        lemma_normalized_component(v.y as int, n2, len);
    } else {
        lemma_normalized_component(v.z as int, n2, len);
    }
}

/// A random direction of (approximately) unit length: points are drawn in
/// the cube around the origin and rejected until one falls inside the unit
/// ball but not too close to the center; after a bounded number of misses
/// the fallback is a fixed axis direction. The result is never short: its
/// squared norm is at least a quarter of a squared unit.
pub fn random_vec3_unit() -> (r: Vec3)
    ensures
        vec_in(r, 65536),
        exists|v: Vec3| norm2_raw(v) != 0 && r == normalized_spec(v),
        norm2_raw(r) >= 0x4000_0000,
{
    let mut attempt: usize = 0;
    while attempt < 64
        invariant
            attempt <= 64,
        decreases 64 - attempt,
    {
        let x: i64 = random_double_range(-65536, 65536);
        let y: i64 = random_double_range(-65536, 65536);
        let z: i64 = random_double_range(-65536, 65536);
        proof {
            crate::fixed::lemma_mul_bound(x as int, x as int, 65536, 65536);
            crate::fixed::lemma_mul_bound(y as int, y as int, 65536, 65536);
            crate::fixed::lemma_mul_bound(z as int, z as int, 65536, 65536);
        }
        let n2: i64 = x * x + y * y + z * z;
        if n2 > 1024 && n2 <= 65536 * 65536 {
            let v = Vec3::new(x, y, z);
            let u = v.normalized();
            proof {
                assert(norm2_raw(v) == n2);
                lemma_normalized_norm_floor(v);
            }
            return u;
        }
        attempt = attempt + 1;
    }
    let axis = Vec3::new(0, 0, 65536);
    proof {
        assert(norm2_raw(axis) == 65536 * 65536) by (nonlinear_arith)
            requires
                axis == (Vec3 { x: 0i64, y: 0i64, z: 65536i64 }),
        ;
        crate::fixed::lemma_sqrt_floor_unique(norm2_raw(axis), 65536);
        assert(normalized_spec(axis) == axis);
    }
    axis
}

/// A random unit-length direction on the hemisphere around the given
/// normal: the drawn direction or its opposite, whichever does not point
/// into the surface.
pub fn random_vec3_on_hemisphere(normal: Vec3) -> (r: Vec3)
    requires
        vec_in(normal, 0x1000_0000_0000),
    ensures
        vec_in(r, 65536),
        norm2_raw(r) >= 0x4000_0000,
        exists|v: Vec3|
            norm2_raw(v) != 0 && (r == normalized_spec(v) || r == neg_spec(
                #[trigger] normalized_spec(v),
            )),
        dot_fx(r, normal) >= 0,
{
    let in_unit_sphere = random_vec3_unit();
    let ghost w = choose|v: Vec3| norm2_raw(v) != 0 && in_unit_sphere == normalized_spec(v);
    proof {
        crate::maths::lemma_dot_raw_bound(in_unit_sphere, normal, 65536, 0x1000_0000_0000);
        lemma_tdiv_bounds(dot_raw(in_unit_sphere, normal), 65536);
    }
    if in_unit_sphere.dot(normal) > 0 {
        proof {
            assert(norm2_raw(w) != 0 && in_unit_sphere == normalized_spec(w));
        }
        in_unit_sphere
    } else {
        let flipped = in_unit_sphere.neg();
        proof {
            assert(flipped == neg_spec(normalized_spec(w)));
            assert(norm2_raw(w) != 0);
            assert(dot_raw(flipped, normal) == -dot_raw(in_unit_sphere, normal))
                by (nonlinear_arith)
                requires
                    flipped.x == -in_unit_sphere.x,
                    flipped.y == -in_unit_sphere.y,
                    flipped.z == -in_unit_sphere.z,
                    dot_raw(flipped, normal) == flipped.x * normal.x + flipped.y * normal.y
                        + flipped.z * normal.z,
                    dot_raw(in_unit_sphere, normal) == in_unit_sphere.x * normal.x
                        + in_unit_sphere.y * normal.y + in_unit_sphere.z * normal.z,
            ;
            lemma_tdiv_neg(dot_raw(in_unit_sphere, normal), 65536);
            assert(norm2_raw(flipped) == norm2_raw(in_unit_sphere)) by (nonlinear_arith)
                requires
                    flipped.x == -in_unit_sphere.x,
                    flipped.y == -in_unit_sphere.y,
                    flipped.z == -in_unit_sphere.z,
                    norm2_raw(flipped) == flipped.x * flipped.x + flipped.y * flipped.y + flipped.z
                        * flipped.z,
                    norm2_raw(in_unit_sphere) == in_unit_sphere.x * in_unit_sphere.x
                        + in_unit_sphere.y * in_unit_sphere.y + in_unit_sphere.z
                        * in_unit_sphere.z,
            ;
        }
        flipped
    }
}

} // verus!
