//! Material scattering: how a surface turns an incoming ray into an
//! attenuation color and a new ray.
//!
//! Three closed variants — diffuse, reflective-with-fuzz and refractive —
//! are dispatched through a tagged sum so the per-ray loop stays free of
//! heap indirection. Scattering draws randomness, so the contracts fix the
//! origin and the attenuation exactly and describe the direction for every
//! possible draw.

use vstd::prelude::*;

use crate::color::Color;
use crate::fixed::fdiv;
use crate::fixed::fmul;
use crate::fixed::fsqrt;
use crate::fixed::fx_div;
use crate::fixed::fx_mul;
use crate::fixed::lemma_fx_div_bound;
use crate::fixed::lemma_fx_mul_bound;
use crate::fixed::lemma_tdiv_bounds;
use crate::fixed::sqrt_floor;
use crate::fixed::FP_ONE;
use crate::geometry::HitRecord;
use crate::geometry::Ray;
use crate::maths::dot_raw;
use crate::maths::lemma_dot_raw_bound;
use crate::maths::moderate;
use crate::maths::neg_spec;
use crate::maths::norm2_raw;
use crate::maths::normalized_spec;
use crate::maths::refract;
use crate::maths::refract_cos_spec;
use crate::maths::refract_spec;
use crate::maths::reflect;
use crate::maths::reflect_spec;
use crate::maths::scale_spec;
use crate::maths::vadd_spec;
use crate::maths::vec_in;
use crate::maths::Vec3;
use crate::random::random_double;
use crate::random::random_vec3_unit;

verus! {

/// What a material hands back: how much light survives and where the ray
/// continues.
#[derive(Debug, Clone, Copy)]
pub struct ScatterRecord {
    pub attenuation: Color,
    pub scattered_ray: Ray,
}

/// A diffuse (Lambertian) surface with a fixed albedo.
#[derive(Debug, Clone, Copy)]
pub struct Lambertian {
    pub albedo: Color,
}

impl Lambertian {
    pub fn new(albedo: Color) -> (r: Self)
        ensures
            r.albedo == albedo,
    {
        Self { albedo }
    }

    /// Scatter towards the normal perturbed by a random unit direction;
    /// a degenerate (near-cancelling) sum falls back to the normal itself.
    /// The attenuation is always the albedo, the scattered ray always
    /// starts at the hit point, and its direction is never the zero
    /// vector.
    pub fn scatter(&self, _ray: &Ray, hit_record: &HitRecord) -> (r: Option<ScatterRecord>)
        requires
            vec_in(hit_record.normal, 65536),
        ensures
            r is Some,
            r->0.attenuation == self.albedo,
            r->0.scattered_ray.origin == hit_record.point,
            exists|u: Vec3|
                #[trigger] vec_in(u, 65536) && (exists|v: Vec3|
                    norm2_raw(v) != 0 && u == crate::maths::normalized_spec(v))
                    && r->0.scattered_ray.direction == (if norm2_raw(
                    vadd_spec(hit_record.normal, u),
                ) < 16 {
                    hit_record.normal
                } else {
                    vadd_spec(hit_record.normal, u)
                }),
            r->0.scattered_ray.direction != (Vec3 { x: 0i64, y: 0i64, z: 0i64 }),
            scatter_rel(Material::Lambertian(*self), *_ray, *hit_record, r->0),
    {
        let u: Vec3 = random_vec3_unit();
        let summed: Vec3 = hit_record.normal.add(u);
        proof {
            crate::fixed::lemma_mul_bound(summed.x as int, summed.x as int, 0x20000, 0x20000);
            crate::fixed::lemma_mul_bound(summed.y as int, summed.y as int, 0x20000, 0x20000);
            crate::fixed::lemma_mul_bound(summed.z as int, summed.z as int, 0x20000, 0x20000);
        }
        let n2: i64 = summed.x * summed.x + summed.y * summed.y + summed.z * summed.z;
        let scatter_direction: Vec3 = if n2 < 16 {
            proof {
                // were the normal zero, the sum would be the drawn unit
                // direction, whose squared norm is far above the cutoff
                if hit_record.normal == (Vec3 { x: 0i64, y: 0i64, z: 0i64 }) {
                    assert(summed == u);
                    assert(n2 == norm2_raw(u));
                }
                assert(hit_record.normal != (Vec3 { x: 0i64, y: 0i64, z: 0i64 }));
            }
            hit_record.normal
        } else {
            proof {
                if summed == (Vec3 { x: 0i64, y: 0i64, z: 0i64 }) {
                    assert(n2 == 0) by (nonlinear_arith)
                        requires
                            summed.x == 0,
                            summed.y == 0,
                            summed.z == 0,
                            n2 == summed.x * summed.x + summed.y * summed.y + summed.z * summed.z,
                    ;
                }
                assert(summed != (Vec3 { x: 0i64, y: 0i64, z: 0i64 }));
            }
            summed
        };
        let record = ScatterRecord {
            attenuation: self.albedo,
            scattered_ray: Ray::new(hit_record.point, scatter_direction),
        };
        proof {
            assert(summed == vadd_spec(hit_record.normal, u));
            assert(n2 == norm2_raw(vadd_spec(hit_record.normal, u)));
            assert(vec_in(u, 65536));
            assert(scatter_rel(Material::Lambertian(*self), *_ray, *hit_record, record));
        }
        Some(record)
    }
}

/// A reflective surface: a mirror blurred by a fuzz radius.
#[derive(Debug, Clone, Copy)]
pub struct Metal {
    pub albedo: Color,
    pub fuzz: i64,
}

impl Metal {
    pub fn new(albedo: Color, fuzz: i64) -> (r: Self)
        ensures
            r.albedo == albedo,
            r.fuzz == fuzz,
    {
        Self { albedo, fuzz }
    }

    /// Mirror the normalized incoming direction about the normal, then
    /// perturb it by fuzz times a random unit direction. With zero fuzz the
    /// direction is exactly the mirror image. Any fuzz the arithmetic can
    /// carry is accepted; scenes keep it within one unit.
    pub fn scatter(&self, ray: &Ray, hit_record: &HitRecord) -> (r: Option<ScatterRecord>)
        requires
            moderate(ray.direction),
            vec_in(hit_record.normal, 65536),
            -0x4000_0000_0000_0000 <= self.fuzz <= 0x4000_0000_0000_0000,
        ensures
            r is Some,
            r->0.attenuation == self.albedo,
            r->0.scattered_ray.origin == hit_record.point,
            exists|u: Vec3|
                #[trigger] vec_in(u, 65536) && r->0.scattered_ray.direction == vadd_spec(
                    reflect_spec(normalized_spec(ray.direction), hit_record.normal),
                    scale_spec(u, self.fuzz as int),
                ),
            self.fuzz == 0 ==> r->0.scattered_ray.direction == reflect_spec(
                normalized_spec(ray.direction),
                hit_record.normal,
            ),
            scatter_rel(Material::Metal(*self), *ray, *hit_record, r->0),
    {
        let unit: Vec3 = ray.direction.normalized();
        proof {
            lemma_dot_raw_bound(unit, hit_record.normal, 65536, 65536);
            lemma_tdiv_bounds(dot_raw(unit, hit_record.normal), 65536);
            let d = crate::maths::dot_fx(unit, hit_record.normal);
            lemma_fx_mul_bound(hit_record.normal.x as int, 2 * d, 65536, 0x60000);
            lemma_fx_mul_bound(hit_record.normal.y as int, 2 * d, 65536, 0x60000);
            lemma_fx_mul_bound(hit_record.normal.z as int, 2 * d, 65536, 0x60000);
        }
        let reflected: Vec3 = reflect(unit, hit_record.normal);
        let u: Vec3 = random_vec3_unit();
        proof {
            lemma_fx_mul_bound(u.x as int, self.fuzz as int, 65536, 0x4000_0000_0000_0000);
            lemma_fx_mul_bound(u.y as int, self.fuzz as int, 65536, 0x4000_0000_0000_0000);
            lemma_fx_mul_bound(u.z as int, self.fuzz as int, 65536, 0x4000_0000_0000_0000);
        }
        let fuzzed: Vec3 = u.scale(self.fuzz);
        let scattered_direction: Vec3 = reflected.add(fuzzed);
        let record = ScatterRecord {
            attenuation: self.albedo,
            scattered_ray: Ray::new(hit_record.point, scattered_direction),
        };
        proof {
            assert(scattered_direction == vadd_spec(
                reflect_spec(normalized_spec(ray.direction), hit_record.normal),
                scale_spec(u, self.fuzz as int),
            ));
            assert(vec_in(u, 65536));
            if self.fuzz == 0 {
                assert(fuzzed.x == 0 && fuzzed.y == 0 && fuzzed.z == 0);
            }
            assert(scatter_rel(Material::Metal(*self), *ray, *hit_record, record));
        }
        Some(record)
    }
}

/// Schlick's polynomial approximation of the Fresnel reflectance, on the
/// same fixed-point steps the exec code takes.
pub open spec fn reflectance_spec(cosine: int, refraction_index: int) -> int {
    let r0s = fx_div(65536 - refraction_index, 65536 + refraction_index);
    let r0 = fx_mul(r0s, r0s);
    let p = 65536 - cosine;
    let p2 = fx_mul(p, p);
    let p4 = fx_mul(p2, p2);
    let p5 = fx_mul(p4, p);
    r0 + fx_mul(65536 - r0, p5)
}

/// The effective refraction ratio: inverted when the ray enters from the
/// front face of the surface.
pub open spec fn effective_ri(front_face: bool, refraction_index: int) -> int {
    if front_face {
        fx_div(65536, refraction_index)
    } else {
        refraction_index
    }
}

/// The direction a dielectric scatters to, as a function of the uniform
/// draw `q` that the reflectance is compared against: reflection on total
/// internal reflection or a winning reflectance check, refraction
/// otherwise.
pub open spec fn dielectric_dir_spec(ray: Ray, hit: HitRecord, refraction_index: int, q: int) -> Vec3 {
    let ri = effective_ri(hit.front_face, refraction_index);
    let unit = normalized_spec(ray.direction);
    let cos = refract_cos_spec(unit, hit.normal);
    let cos2 = fx_mul(cos, cos);
    let t = if cos2 > 65536 {
        0
    } else {
        65536 - cos2
    };
    let sin = sqrt_floor(t * 65536);
    if fx_mul(ri, sin) > 65536 || reflectance_spec(cos, ri) > q {
        reflect_spec(unit, hit.normal)
    } else {
        refract_spec(unit, hit.normal, ri)
    }
}

/// A refractive surface (glass, water, or a hollow bubble when the index
/// is below one).
#[derive(Debug, Clone, Copy)]
pub struct Dielectric {
    pub refraction_index: i64,
}

impl Dielectric {
    pub fn new(refraction_index: i64) -> (r: Self)
        ensures
            r.refraction_index == refraction_index,
    {
        Self { refraction_index }
    }

    /// Schlick's reflectance approximation.
    pub fn reflectance(cosine: i64, refraction_index: i64) -> (r: i64)
        requires
            0 < refraction_index <= 0x100_0000,
            -0x30000 <= cosine <= 65536,
        ensures
            r == reflectance_spec(cosine as int, refraction_index as int),
    {
        proof {
            lemma_fx_div_bound(
                65536 - refraction_index,
                65536 + refraction_index,
                0x200_0000,
                65536,
            );
        }
        let r0s: i64 = fdiv(FP_ONE - refraction_index, FP_ONE + refraction_index);
        proof {
            lemma_fx_mul_bound(r0s as int, r0s as int, 0x200_0000, 0x200_0000);
        }
        let r0: i64 = fmul(r0s, r0s);
        let p: i64 = FP_ONE - cosine;
        proof {
            lemma_fx_mul_bound(p as int, p as int, 0x40000, 0x40000);
            lemma_fx_mul_bound(fx_mul(p as int, p as int), fx_mul(p as int, p as int), 0x100000, 0x100000);
            lemma_fx_mul_bound(
                fx_mul(fx_mul(p as int, p as int), fx_mul(p as int, p as int)),
                p as int,
                0x10000000,
                0x40000,
            );
        }
        let p2: i64 = fmul(p, p);
        let p4: i64 = fmul(p2, p2);
        let p5: i64 = fmul(p4, p);
        proof {
            lemma_fx_mul_bound(65536 - r0 as int, p5 as int, 0x4_0001_0000, 0x40_0000_0000);
        }
        r0 + fmul(FP_ONE - r0, p5)
    }

    /// Reflect or refract the normalized incoming direction: total internal
    /// reflection and a probabilistic Schlick reflectance check pick the
    /// mirror; otherwise the ray bends by Snell's law. Attenuation is
    /// always white and the scattered ray always starts at the hit point.
    pub fn scatter(&self, ray: &Ray, hit_record: &HitRecord) -> (r: Option<ScatterRecord>)
        requires
            moderate(ray.direction),
            vec_in(hit_record.normal, 65536),
            16384 <= self.refraction_index <= 0x40_0000,
        ensures
            r is Some,
            r->0.attenuation == (Vec3 { x: 65536i64, y: 65536i64, z: 65536i64 }),
            r->0.scattered_ray.origin == hit_record.point,
            exists|q: int|
                0 <= q < 65536 && r->0.scattered_ray.direction == #[trigger] dielectric_dir_spec(
                    *ray,
                    *hit_record,
                    self.refraction_index as int,
                    q,
                ),
            scatter_rel(Material::Dielectric(*self), *ray, *hit_record, r->0),
    {
        proof {
            lemma_fx_div_bound(65536, self.refraction_index as int, 65536, 16384);
        }
        let ri: i64 = if hit_record.front_face {
            fdiv(FP_ONE, self.refraction_index)
        } else {
            self.refraction_index
        };
        proof {
            if hit_record.front_face {
                lemma_tdiv_bounds(65536int * 65536, self.refraction_index as int);
                let q0 = crate::fixed::tdiv(65536int * 65536, self.refraction_index as int);
                assert(q0 >= 1) by (nonlinear_arith)
                    requires
                        (self.refraction_index as int) * q0 + (self.refraction_index as int) > 65536int
                            * 65536,
                        0 < self.refraction_index <= 0x40_0000,
                        q0 >= 0,
                ;
            }
            assert(1 <= ri <= 0x40_0000);
        }
        let unit_direction: Vec3 = ray.direction.normalized();
        proof {
            lemma_dot_raw_bound(unit_direction, hit_record.normal, 65536, 65536);
            let m = neg_spec(unit_direction);
            assert(m.x * hit_record.normal.x + m.y * hit_record.normal.y + m.z
                * hit_record.normal.z == -(unit_direction.x * hit_record.normal.x
                + unit_direction.y * hit_record.normal.y + unit_direction.z
                * hit_record.normal.z)) by (nonlinear_arith)
                requires
                    m.x == -unit_direction.x,
                    m.y == -unit_direction.y,
                    m.z == -unit_direction.z,
            ;
            lemma_tdiv_bounds(dot_raw(m, hit_record.normal), 65536);
        }
        let d: i64 = unit_direction.neg().dot(hit_record.normal);
        let cos_theta: i64 = if d > FP_ONE {
            FP_ONE
        } else {
            d
        };
        proof {
            lemma_fx_mul_bound(cos_theta as int, cos_theta as int, 0x30000, 0x30000);
        }
        let cos2: i64 = fmul(cos_theta, cos_theta);
        proof {
            assert((cos_theta as int) * (cos_theta as int) >= 0) by (nonlinear_arith);
            lemma_tdiv_bounds((cos_theta as int) * (cos_theta as int), 65536);
        }
        let t: i64 = if cos2 > FP_ONE {
            0
        } else {
            FP_ONE - cos2
        };
        let sin_theta: i64 = fsqrt(t);
        proof {
            lemma_fx_mul_bound(ri as int, sin_theta as int, 0x40_0000, 65536);
        }
        let cannot_refract: bool = fmul(ri, sin_theta) > FP_ONE;
        let q: i64 = random_double();
        let direction: Vec3 = if cannot_refract || Self::reflectance(cos_theta, ri) > q {
            proof {
                lemma_dot_raw_bound(unit_direction, hit_record.normal, 65536, 65536);
                lemma_tdiv_bounds(dot_raw(unit_direction, hit_record.normal), 65536);
                let dd = crate::maths::dot_fx(unit_direction, hit_record.normal);
                lemma_fx_mul_bound(hit_record.normal.x as int, 2 * dd, 65536, 0x60000);
                lemma_fx_mul_bound(hit_record.normal.y as int, 2 * dd, 65536, 0x60000);
                lemma_fx_mul_bound(hit_record.normal.z as int, 2 * dd, 65536, 0x60000);
            }
            reflect(unit_direction, hit_record.normal)
        } else {
            refract(unit_direction, hit_record.normal, ri)
        };
        let record = ScatterRecord {
            attenuation: Color::white(),
            scattered_ray: Ray::new(hit_record.point, direction),
        };
        proof {
            assert(cos_theta == refract_cos_spec(unit_direction, hit_record.normal));
            assert(direction == dielectric_dir_spec(
                *ray,
                *hit_record,
                self.refraction_index as int,
                q as int,
            ));
            assert(material_refraction_index(Material::Dielectric(*self))
                == self.refraction_index as int);
            assert(0 <= (q as int) && (q as int) < 65536 && record.scattered_ray.direction
                == dielectric_dir_spec(
                *ray,
                *hit_record,
                material_refraction_index(Material::Dielectric(*self)),
                q as int,
            ));
            assert(scatter_rel(Material::Dielectric(*self), *ray, *hit_record, record));
        }
        Some(record)
    }
}

/// The closed set of materials a scene object can carry.
#[derive(Debug, Clone, Copy)]
pub enum Material {
    Lambertian(Lambertian),
    Metal(Metal),
    Dielectric(Dielectric),
}

/// The refraction index a material bends rays by; one for the others.
pub open spec fn material_refraction_index(m: Material) -> int {
    match m {
        Material::Dielectric(d) => d.refraction_index as int,
        _ => 65536,
    }
}

/// One possible outcome of scattering `ray` at `hit` on material `m`: the
/// attenuation is the material's own, the new ray starts at the hit point,
/// and the direction has the variant's form for some admissible random
/// draw. Randomness is existential: every actual outcome satisfies this,
/// and nothing ties one call to the next.
pub open spec fn scatter_rel(m: Material, ray: Ray, hit: HitRecord, sr: ScatterRecord) -> bool {
    &&& sr.attenuation == material_attenuation(m)
    &&& sr.scattered_ray.origin == hit.point
    &&& match m {
        Material::Lambertian(_) => exists|u: Vec3|
            #[trigger] vec_in(u, 65536) && (exists|v: Vec3|
                norm2_raw(v) != 0 && u == normalized_spec(v)) && sr.scattered_ray.direction == (
            if norm2_raw(vadd_spec(hit.normal, u)) < 16 {
                hit.normal
            } else {
                vadd_spec(hit.normal, u)
            }),
        Material::Metal(mt) => exists|u: Vec3|
            #[trigger] vec_in(u, 65536) && sr.scattered_ray.direction == vadd_spec(
                reflect_spec(normalized_spec(ray.direction), hit.normal),
                scale_spec(u, mt.fuzz as int),
            ),
        Material::Dielectric(_) => exists|q: int|
            0 <= q < 65536 && sr.scattered_ray.direction == #[trigger] dielectric_dir_spec(
                ray,
                hit,
                material_refraction_index(m),
                q,
            ),
    }
}

/// The parameter ranges under which each material's arithmetic is safe:
/// albedos are colors in the unit range, fuzz does not exceed one, and the
/// refraction index stays within a quarter and sixty-four.
pub open spec fn material_wf(m: Material) -> bool {
    match m {
        Material::Lambertian(l) => 0 <= l.albedo.x <= 65536 && 0 <= l.albedo.y <= 65536 && 0
            <= l.albedo.z <= 65536,
        Material::Metal(mt) => 0 <= mt.albedo.x <= 65536 && 0 <= mt.albedo.y <= 65536 && 0
            <= mt.albedo.z <= 65536 && 0 <= mt.fuzz <= 65536,
        Material::Dielectric(d) => 16384 <= d.refraction_index <= 0x40_0000,
    }
}

/// The attenuation each material multiplies into the recursive color.
pub open spec fn material_attenuation(m: Material) -> Color {
    match m {
        Material::Lambertian(l) => l.albedo,
        Material::Metal(mt) => mt.albedo,
        Material::Dielectric(_) => Vec3 { x: 65536i64, y: 65536i64, z: 65536i64 },
    }
}

impl Material {
    /// Dispatch to the variant's scattering rule. Every variant scatters:
    /// the attenuation is the material's own and stays a unit-range color,
    /// the scattered ray starts at the hit point, and the whole outcome is
    /// one the variant's scattering relation admits.
    pub fn scatter(&self, ray: &Ray, hit_record: &HitRecord) -> (r: Option<ScatterRecord>)
        requires
            material_wf(*self),
            moderate(ray.direction),
            vec_in(hit_record.normal, 65536),
        ensures
            r is Some,
            r->0.attenuation == material_attenuation(*self),
            0 <= r->0.attenuation.x <= 65536,
            0 <= r->0.attenuation.y <= 65536,
            0 <= r->0.attenuation.z <= 65536,
            r->0.scattered_ray.origin == hit_record.point,
            scatter_rel(*self, *ray, *hit_record, r->0),
    {
        match self {
            Material::Lambertian(l) => l.scatter(ray, hit_record),
            Material::Metal(mt) => mt.scatter(ray, hit_record),
            Material::Dielectric(d) => d.scatter(ray, hit_record),
        }
    }
}

} // verus!
