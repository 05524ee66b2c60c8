//! Rays, intersection records and spheres.
//!
//! A ray's direction is deliberately not unit length; the parameter `t`
//! scales it. A sphere's intersection test mirrors, step for step, a
//! functional specification written over the same fixed-point arithmetic.

use vstd::prelude::*;

use crate::fixed::fdiv;
use crate::fixed::fmul;
use crate::fixed::fsqrt;
use crate::fixed::fx_div;
use crate::fixed::fx_mul;
use crate::fixed::lemma_fx_div_bound;
use crate::fixed::lemma_fx_mul_bound;
use crate::fixed::lemma_sqrt_floor;
use crate::fixed::lemma_tdiv_bounds;
use crate::fixed::sqrt_floor;
use crate::fixed::tdiv;
use crate::maths::dot_fx;
use crate::maths::dot_raw;
use crate::maths::fits_i64;
use crate::maths::lemma_dot_raw_bound;
use crate::maths::moderate;
use crate::maths::norm2_raw;
use crate::maths::normalized_spec;
use crate::maths::vec_in;
use crate::maths::Interval;
use crate::maths::Point;
use crate::maths::Vec3;

verus! {

/// Largest coordinate magnitude of well-formed scene geometry (512 units).
pub const COORD_LIMIT: i64 = 0x200_0000;

/// Largest direction component of a well-formed ray (4 units).
pub const DIR_LIMIT: i64 = 0x4_0000;

/// Smallest raw squared norm of a well-formed ray direction (1/8 unit).
pub const DIR_MIN_NORM2: i64 = 0x1000_0000;

/// Largest radius of a well-formed sphere (128 units).
pub const RADIUS_LIMIT: i64 = 0x80_0000;

#[derive(Debug, Clone, Copy)]
pub struct Ray {
    pub origin: Point,
    pub direction: Vec3,
}

/// A ray whose origin, direction and direction length the intersection
/// arithmetic can take without overflow.
pub open spec fn ray_wf(r: Ray) -> bool {
    &&& vec_in(r.origin, COORD_LIMIT as int)
    &&& vec_in(r.direction, DIR_LIMIT as int)
    &&& norm2_raw(r.direction) >= DIR_MIN_NORM2
}

/// Decide well-formedness of a ray at run time: scattered rays that left
/// the trusted coordinate range (which exact tracing never produces, but
/// nothing upstream promises) are caught here and treated as absorbed.
pub fn ray_wf_check(ray: &Ray) -> (r: bool)
    ensures
        r == ray_wf(*ray),
{
    let o = ray.origin;
    let d = ray.direction;
    if o.x < -COORD_LIMIT || o.x > COORD_LIMIT || o.y < -COORD_LIMIT || o.y > COORD_LIMIT || o.z
        < -COORD_LIMIT || o.z > COORD_LIMIT {
        return false;
    }
    if d.x < -DIR_LIMIT || d.x > DIR_LIMIT || d.y < -DIR_LIMIT || d.y > DIR_LIMIT || d.z < -DIR_LIMIT
        || d.z > DIR_LIMIT {
        return false;
    }
    proof {
        crate::fixed::lemma_mul_bound(d.x as int, d.x as int, DIR_LIMIT as int, DIR_LIMIT as int);
        crate::fixed::lemma_mul_bound(d.y as int, d.y as int, DIR_LIMIT as int, DIR_LIMIT as int);
        crate::fixed::lemma_mul_bound(d.z as int, d.z as int, DIR_LIMIT as int, DIR_LIMIT as int);
    }
    let n2: i64 = d.x * d.x + d.y * d.y + d.z * d.z;
    n2 >= DIR_MIN_NORM2
}

/// The point the ray reaches at parameter `t`.
pub open spec fn ray_at_spec(r: Ray, t: int) -> Vec3 {
    Vec3 {
        x: (r.origin.x + fx_mul(r.direction.x as int, t)) as i64,
        y: (r.origin.y + fx_mul(r.direction.y as int, t)) as i64,
        z: (r.origin.z + fx_mul(r.direction.z as int, t)) as i64,
    }
}

impl Ray {
    pub fn new(origin: Point, direction: Vec3) -> (r: Self)
        ensures
            r.origin == origin,
            r.direction == direction,
    {
        Self { origin, direction }
    }

    pub fn at(&self, t: i64) -> (r: Vec3)
        requires
            fits_i64(fx_mul(self.direction.x as int, t as int)),
            fits_i64(fx_mul(self.direction.y as int, t as int)),
            fits_i64(fx_mul(self.direction.z as int, t as int)),
            fits_i64(self.origin.x + fx_mul(self.direction.x as int, t as int)),
            fits_i64(self.origin.y + fx_mul(self.direction.y as int, t as int)),
            fits_i64(self.origin.z + fx_mul(self.direction.z as int, t as int)),
        ensures
            r == ray_at_spec(*self, t as int),
    {
        Vec3::new(
            self.origin.x + fmul(self.direction.x, t),
            self.origin.y + fmul(self.direction.y, t),
            self.origin.z + fmul(self.direction.z, t),
        )
    }
}

#[derive(Debug, Clone, Copy)]
pub struct HitRecord {
    pub point: Point,
    /// Normal of the hit point; always points against the ray.
    pub normal: Vec3,
    pub t: i64,
    pub front_face: bool,
    /// Index of the hit object's material in the scene's material arena.
    pub material: usize,
}

/// The record built from an outward surface normal: the normal is flipped
/// to oppose the ray, and `front_face` remembers whether it already did.
pub open spec fn hit_record_spec(
    point: Point,
    outward_normal: Vec3,
    t: int,
    ray: Ray,
    material: int,
) -> HitRecord {
    let front_face = dot_fx(ray.direction, outward_normal) < 0;
    HitRecord {
        point,
        normal: if front_face {
            outward_normal
        } else {
            Vec3 { x: (-outward_normal.x) as i64, y: (-outward_normal.y) as i64, z: (
            -outward_normal.z) as i64 }
        },
        t: t as i64,
        front_face,
        material: material as usize,
    }
}

impl HitRecord {
    /// The normal given on construction is expected to point outward from
    /// the surface.
    pub fn new(point: Point, outward_normal: Vec3, t: i64, ray: &Ray, material: usize) -> (r: Self)
        requires
            moderate(ray.direction),
            moderate(outward_normal),
            fits_i64(dot_fx(ray.direction, outward_normal)),
            outward_normal.x > i64::MIN,
            outward_normal.y > i64::MIN,
            outward_normal.z > i64::MIN,
        ensures
            r == hit_record_spec(point, outward_normal, t as int, *ray, material as int),
    {
        let front_face: bool = ray.direction.dot(outward_normal) < 0;
        let normal: Vec3 = if front_face {
            outward_normal
        } else {
            outward_normal.neg()
        };
        Self { point, normal, t, front_face, material }
    }
}

#[derive(Debug, Clone, Copy)]
pub struct Sphere {
    pub center: Vec3,
    pub radius: i64,
    /// Index into the scene's material arena.
    pub material: usize,
}

/// A sphere the intersection arithmetic can take without overflow.
pub open spec fn sphere_wf(s: Sphere) -> bool {
    &&& vec_in(s.center, COORD_LIMIT as int)
    &&& 0 < s.radius <= RADIUS_LIMIT
}

/// The vector from the ray origin to the sphere center.
pub open spec fn sphere_oc(s: Sphere, ray: Ray) -> Vec3 {
    Vec3 {
        x: (s.center.x - ray.origin.x) as i64,
        y: (s.center.y - ray.origin.y) as i64,
        z: (s.center.z - ray.origin.z) as i64,
    }
}

/// The discriminant of the ray-sphere quadratic: negative exactly when the
/// ray's line misses the sphere.
pub open spec fn sphere_discriminant(s: Sphere, ray: Ray) -> int {
    let oc = sphere_oc(s, ray);
    let a = tdiv(norm2_raw(ray.direction), 65536);
    let h = tdiv(dot_raw(ray.direction, oc), 65536);
    let c = tdiv(norm2_raw(oc), 65536) - fx_mul(s.radius as int, s.radius as int);
    fx_mul(h, h) - fx_mul(a, c)
}

/// The nearest intersection of the ray with the sphere strictly inside the
/// interval, mirroring the quadratic solved by the exec code: the smaller
/// root is preferred, the larger one tried when the interval excludes it.
pub open spec fn sphere_hit_spec(s: Sphere, ray: Ray, itv: Interval) -> Option<HitRecord> {
    let oc = sphere_oc(s, ray);
    let a = tdiv(norm2_raw(ray.direction), 65536);
    let h = tdiv(dot_raw(ray.direction, oc), 65536);
    let c = tdiv(norm2_raw(oc), 65536) - fx_mul(s.radius as int, s.radius as int);
    let discriminant = sphere_discriminant(s, ray);
    if discriminant < 0 {
        None
    } else {
        let sqrtd = sqrt_floor(discriminant * 65536);
        let near = fx_div(h - sqrtd, a);
        let root = if itv.min < near < itv.max {
            near
        } else {
            fx_div(h + sqrtd, a)
        };
        if !(itv.min < root < itv.max) {
            None
        } else {
            let point = ray_at_spec(ray, root);
            let outward = normalized_spec(
                Vec3 {
                    x: (point.x - s.center.x) as i64,
                    y: (point.y - s.center.y) as i64,
                    z: (point.z - s.center.z) as i64,
                },
            );
            Some(hit_record_spec(point, outward, root, ray, s.material as int))
        }
    }
}

impl Sphere {
    pub fn new(center: Point, radius: i64, material: usize) -> (r: Self)
        ensures
            r.center == center,
            r.radius == radius,
            r.material == material,
    {
        Self { center, radius, material }
    }

    /// The outward unit normal of a point on the surface.
    pub fn hit_normal(&self, point_on_surface: Point) -> (r: Vec3)
        requires
            vec_in(self.center, COORD_LIMIT as int),
            vec_in(point_on_surface, 0x100_0000_0000_0000),
        ensures
            r == normalized_spec(
                (Vec3 {
                    x: (point_on_surface.x - self.center.x) as i64,
                    y: (point_on_surface.y - self.center.y) as i64,
                    z: (point_on_surface.z - self.center.z) as i64,
                }),
            ),
            -65536 <= r.x <= 65536,
            -65536 <= r.y <= 65536,
            -65536 <= r.z <= 65536,
    {
        point_on_surface.sub(self.center).normalized()
    }

    /// The nearest hit of the ray strictly inside the interval; rays that
    /// start inside the sphere still resolve to their exit point through
    /// the larger root.
    pub fn hit(&self, ray: &Ray, interval: &Interval) -> (r: Option<HitRecord>)
        requires
            sphere_wf(*self),
            ray_wf(*ray),
        ensures
            r == sphere_hit_spec(*self, *ray, *interval),
            r matches Some(h) ==> vec_in(h.normal, 65536) && interval.min < h.t < interval.max
                && h.material == self.material,
    {
        proof {
            lemma_dot_raw_bound(ray.direction, ray.direction, DIR_LIMIT as int, DIR_LIMIT as int);
            lemma_tdiv_bounds(norm2_raw(ray.direction), 65536);
            lemma_tdiv_bounds(DIR_MIN_NORM2 as int, 65536);
        }
        let oc: Vec3 = self.center.sub(ray.origin);
        let a: i64 = ray.direction.length_squared();
        proof {
            // the direction's minimum norm keeps the quadratic coefficient positive
            assert(a >= 4096);
            lemma_dot_raw_bound(ray.direction, oc, DIR_LIMIT as int, 2 * COORD_LIMIT as int);
            lemma_tdiv_bounds(dot_raw(ray.direction, oc), 65536);
            lemma_dot_raw_bound(oc, oc, 2 * COORD_LIMIT as int, 2 * COORD_LIMIT as int);
            lemma_tdiv_bounds(norm2_raw(oc), 65536);
            lemma_fx_mul_bound(
                self.radius as int,
                self.radius as int,
                RADIUS_LIMIT as int,
                RADIUS_LIMIT as int,
            );
        }
        let h: i64 = ray.direction.dot(oc);
        let c: i64 = oc.length_squared() - fmul(self.radius, self.radius);
        proof {
            lemma_fx_mul_bound(h as int, h as int, 0x4000_0000, 0x4000_0000);
            lemma_fx_mul_bound(a as int, c as int, 0x40_0000, 0x80_0000_0000);
        }
        let discriminant: i64 = fmul(h, h) - fmul(a, c);
        if discriminant < 0 {
            return None;
        }
        let sqrtd: i64 = fsqrt(discriminant);
        proof {
            lemma_sqrt_floor(discriminant * 65536);
            assert(sqrtd <= 0x1_0000_0000_0000) by (nonlinear_arith)
                requires
                    (sqrtd as int) * (sqrtd as int) <= (discriminant as int) * 65536,
                    sqrtd >= 0,
                    discriminant <= 0x4000_0000_0000_0000,
            ;
            lemma_fx_div_bound(h - sqrtd, a as int, 0x2_0000_0000_0000, 4096);
            lemma_fx_div_bound(h + sqrtd, a as int, 0x2_0000_0000_0000, 4096);
        }
        let mut root: i64 = fdiv(h - sqrtd, a);
        if !interval.surrounds(root) {
            root = fdiv(h + sqrtd, a);
        }
        if !interval.surrounds(root) {
            return None;
        }
        proof {
            lemma_fx_mul_bound(ray.direction.x as int, root as int, DIR_LIMIT as int, 0x20_0000_0000_0000);
            lemma_fx_mul_bound(ray.direction.y as int, root as int, DIR_LIMIT as int, 0x20_0000_0000_0000);
            lemma_fx_mul_bound(ray.direction.z as int, root as int, DIR_LIMIT as int, 0x20_0000_0000_0000);
        }
        let point: Vec3 = ray.at(root);
        let normal: Vec3 = self.hit_normal(point);
        proof {
            lemma_dot_raw_bound(ray.direction, normal, DIR_LIMIT as int, 65536);
            lemma_tdiv_bounds(dot_raw(ray.direction, normal), 65536);
        }
        Some(HitRecord::new(point, normal, root, ray, self.material))
    }
}

/// A negative discriminant reports no intersection, and any record the
/// sphere does report carries a normal that opposes the ray — the dot
/// product of the ray direction with the returned normal is never
/// positive, whichever way the outward surface normal pointed.
pub proof fn lemma_sphere_hit_convention(s: Sphere, ray: Ray, itv: Interval)
    ensures
        sphere_discriminant(s, ray) < 0 ==> sphere_hit_spec(s, ray, itv) is None,
        sphere_hit_spec(s, ray, itv) matches Some(h) ==> dot_fx(ray.direction, h.normal) <= 0,
{
    if sphere_hit_spec(s, ray, itv) is Some {
        let h = sphere_hit_spec(s, ray, itv)->0;
        let oc = sphere_oc(s, ray);
        let a = tdiv(norm2_raw(ray.direction), 65536);
        let hh = tdiv(dot_raw(ray.direction, oc), 65536);
        let sqrtd = sqrt_floor(sphere_discriminant(s, ray) * 65536);
        let near = fx_div(hh - sqrtd, a);
        let root = if itv.min < near < itv.max {
            near
        } else {
            fx_div(hh + sqrtd, a)
        };
        let point = ray_at_spec(ray, root);
        let outward = normalized_spec(
            Vec3 {
                x: (point.x - s.center.x) as i64,
                y: (point.y - s.center.y) as i64,
                z: (point.z - s.center.z) as i64,
            },
        );
        assert(h == hit_record_spec(point, outward, root, ray, s.material as int));
        crate::maths::lemma_normalized_bounds(
            Vec3 {
                x: (point.x - s.center.x) as i64,
                y: (point.y - s.center.y) as i64,
                z: (point.z - s.center.z) as i64,
            },
        );
        let d = dot_fx(ray.direction, outward);
        if d < 0 {
            assert(h.normal == outward);
        } else {
            assert(h.normal.x == -outward.x && h.normal.y == -outward.y && h.normal.z
                == -outward.z);
            assert(dot_raw(ray.direction, h.normal) == -dot_raw(ray.direction, outward))
                by (nonlinear_arith)
                requires
                    h.normal.x == -outward.x,
                    h.normal.y == -outward.y,
                    h.normal.z == -outward.z,
                    dot_raw(ray.direction, h.normal) == ray.direction.x * h.normal.x
                        + ray.direction.y * h.normal.y + ray.direction.z * h.normal.z,
                    dot_raw(ray.direction, outward) == ray.direction.x * outward.x
                        + ray.direction.y * outward.y + ray.direction.z * outward.z,
            ;
            crate::fixed::lemma_tdiv_neg(dot_raw(ray.direction, outward), 65536);
        }
    }
}

} // verus!
