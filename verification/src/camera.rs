//! The camera: from fractional pixel coordinates to world-space rays, and
//! the recursive Monte-Carlo shading of a ray against the scene.

use vstd::prelude::*;

use crate::color::Color;
use crate::fixed::fmul;
use crate::fixed::fx_div;
use crate::fixed::fx_mul;
use crate::fixed::lemma_fx_div_bound;
use crate::fixed::lemma_fx_mul_bound;
use crate::fixed::lemma_tdiv_bounds;
use crate::fixed::lemma_unit_scale_bound;
use crate::fixed::FP_ONE;
use crate::geometry::ray_wf;
use crate::geometry::ray_wf_check;
use crate::geometry::Ray;
use crate::maths::scale_spec;
use crate::maths::vadd_spec;
use crate::maths::vec_in;
use crate::maths::vsub_spec;
use crate::maths::Interval;
use crate::maths::Vec3;
use crate::geometry::Sphere;
use crate::materials::scatter_rel;
use crate::materials::Material;
use crate::materials::ScatterRecord;
use crate::scene::list_hit_spec;
use crate::scene::HittableList;

verus! {

#[derive(Debug, Clone, Copy)]
pub struct Camera {
    pub pixel_width: i64,
    pub pixel_height: i64,
    pub focal_length: i64,
    pub origin: Vec3,
    pub pixel00_loc: Vec3,
    pub pixel_delta_u: Vec3,
    pub pixel_delta_v: Vec3,
}

/// Field bounds under which pixel rays can be formed without overflow.
pub open spec fn camera_wf(c: Camera) -> bool {
    &&& vec_in(c.origin, 0x100_0000)
    &&& vec_in(c.pixel00_loc, 0x10_0000_0000)
    &&& vec_in(c.pixel_delta_u, 0x10_0000_0000)
    &&& vec_in(c.pixel_delta_v, 0x10_0000_0000)
}

/// The viewport precomputation: a viewport two world units tall, widened by
/// the pixel aspect correction, spanned by per-pixel delta vectors, with
/// the first pixel half a delta in from the upper-left corner.
pub open spec fn camera_new_spec(
    pixel_width: int,
    pixel_height: int,
    pixel_aspect_ratio: int,
    focal_length: int,
    origin: Vec3,
) -> Camera {
    let viewport_width = fx_div(fx_mul(131072, pixel_width), pixel_height);
    let viewport_u = Vec3 { x: fx_mul(viewport_width, pixel_aspect_ratio) as i64, y: 0i64, z: 0i64 };
    let viewport_v = Vec3 { x: 0i64, y: -131072i64, z: 0i64 };
    let pixel_delta_u = Vec3 {
        x: fx_div(viewport_u.x as int, pixel_width) as i64,
        y: 0i64,
        z: 0i64,
    };
    let pixel_delta_v = Vec3 {
        x: 0i64,
        y: fx_div(-131072, pixel_height) as i64,
        z: 0i64,
    };
    let viewport_upper_left = vsub_spec(
        vsub_spec(
            vsub_spec(origin, Vec3 { x: 0i64, y: 0i64, z: focal_length as i64 }),
            Vec3 { x: fx_div(viewport_u.x as int, 131072) as i64, y: 0i64, z: 0i64 },
        ),
        Vec3 { x: 0i64, y: fx_div(viewport_v.y as int, 131072) as i64, z: 0i64 },
    );
    let pixel00_loc = vadd_spec(
        vadd_spec(
            viewport_upper_left,
            Vec3 { x: fx_div(pixel_delta_u.x as int, 131072) as i64, y: 0i64, z: 0i64 },
        ),
        Vec3 { x: 0i64, y: fx_div(pixel_delta_v.y as int, 131072) as i64, z: 0i64 },
    );
    Camera {
        pixel_width: pixel_width as i64,
        pixel_height: pixel_height as i64,
        focal_length: focal_length as i64,
        origin,
        pixel00_loc,
        pixel_delta_u,
        pixel_delta_v,
    }
}

/// The background gradient a ray that escapes the scene sees: white at
/// the horizon blending to a pale sky blue with the direction's upward
/// component.
pub open spec fn sky_color_spec(ray: Ray) -> Color {
    let u = crate::maths::normalized_spec(ray.direction);
    let a = fx_mul(32768, u.y + 65536);
    Vec3 {
        x: (fx_mul(65536, 65536 - a) + fx_mul(32768, a)) as i64,
        y: (fx_mul(65536, 65536 - a) + fx_mul(45875, a)) as i64,
        z: (fx_mul(65536, 65536 - a) + fx_mul(65536, a)) as i64,
    }
}

/// `shaded` is `attenuation` applied channel by channel to some unit-range
/// color: what a bounce that continued into the scene can return.
pub open spec fn attenuated_by(shaded: Color, attenuation: Color, bounced: Color) -> bool {
    &&& 0 <= bounced.x <= 65536
    &&& 0 <= bounced.y <= 65536
    &&& 0 <= bounced.z <= 65536
    &&& shaded.x == fx_mul(attenuation.x as int, bounced.x as int)
    &&& shaded.y == fx_mul(attenuation.y as int, bounced.y as int)
    &&& shaded.z == fx_mul(attenuation.z as int, bounced.z as int)
}

/// Every color the recursive shader can return for this ray at this
/// depth: black once the bounce budget is spent or for a ray outside the
/// well-formed range, the sky gradient where the scene is missed, and on a
/// hit an outcome the hit material's scattering relation admits,
/// attenuating a color this same relation admits one bounce deeper. The
/// random draws are existential, so every actual run satisfies this.
pub open spec fn ray_color_rel(
    objects: Seq<Sphere>,
    materials: Seq<Material>,
    ray: Ray,
    depth: int,
    r: Color,
) -> bool
    decreases depth,
{
    if depth <= 0 {
        r == (Vec3 { x: 0i64, y: 0i64, z: 0i64 })
    } else if !ray_wf(ray) {
        r == (Vec3 { x: 0i64, y: 0i64, z: 0i64 })
    } else {
        match list_hit_spec(
            objects,
            ray,
            (Interval { min: 0i64, max: i64::MAX }),
            objects.len() as int,
        ) {
            Option::None => r == sky_color_spec(ray),
            Option::Some(h) => exists|sr: ScatterRecord, c: Color|
                #![trigger scatter_rel(materials[h.material as int], ray, h, sr), attenuated_by(
                    r,
                    sr.attenuation,
                    c,
                )]
                scatter_rel(materials[h.material as int], ray, h, sr) && ray_color_rel(
                    objects,
                    materials,
                    sr.scattered_ray,
                    depth - 1,
                    c,
                ) && attenuated_by(r, sr.attenuation, c),
        }
    }
}

/// The ray from the camera origin through a (fractional) pixel position;
/// the direction is intentionally left un-normalized.
pub open spec fn pixel_ray_spec(c: Camera, x: int, y: int) -> Ray {
    let pixel_center = vadd_spec(
        vadd_spec(c.pixel00_loc, scale_spec(c.pixel_delta_u, x)),
        scale_spec(c.pixel_delta_v, y),
    );
    Ray { origin: c.origin, direction: vsub_spec(pixel_center, c.origin) }
}

impl Camera {
    pub fn new(
        pixel_width: i64,
        pixel_height: i64,
        pixel_aspect_ratio: i64,
        focal_length: i64,
        origin: Vec3,
    ) -> (r: Camera)
        requires
            65536 <= pixel_width <= 0x8000_0000,
            65536 <= pixel_height <= 0x8000_0000,
            0 < pixel_aspect_ratio <= 131072,
            0 < focal_length <= 0x10_0000,
            vec_in(origin, 0x100_0000),
        ensures
            r == camera_new_spec(
                pixel_width as int,
                pixel_height as int,
                pixel_aspect_ratio as int,
                focal_length as int,
                origin,
            ),
            camera_wf(r),
    {
        proof {
            lemma_fx_mul_bound(131072, pixel_width as int, 131072, 0x8000_0000);
            lemma_fx_div_bound(
                fx_mul(131072, pixel_width as int),
                pixel_height as int,
                0x1_0000_0000,
                65536,
            );
        }
        let viewport_width: i64 = crate::fixed::fdiv(
            fmul(2 * FP_ONE, pixel_width),
            pixel_height,
        );
        proof {
            lemma_fx_mul_bound(
                viewport_width as int,
                pixel_aspect_ratio as int,
                0x1_0000_0000,
                131072,
            );
        }
        let viewport_u: Vec3 = Vec3::new(viewport_width, 0, 0).scale(pixel_aspect_ratio);
        let viewport_v: Vec3 = Vec3::new(0, -2 * FP_ONE, 0);
        proof {
            lemma_fx_div_bound(viewport_u.x as int, pixel_width as int, 0x2_0000_0000, 65536);
            lemma_fx_div_bound(viewport_u.y as int, pixel_width as int, 0x2_0000_0000, 65536);
            lemma_fx_div_bound(viewport_u.z as int, pixel_width as int, 0x2_0000_0000, 65536);
            lemma_fx_div_bound(viewport_v.x as int, pixel_height as int, 131072, 65536);
            lemma_fx_div_bound(viewport_v.y as int, pixel_height as int, 131072, 65536);
            lemma_fx_div_bound(viewport_v.z as int, pixel_height as int, 131072, 65536);
        }
        let pixel_delta_u: Vec3 = viewport_u.div_scalar(pixel_width);
        let pixel_delta_v: Vec3 = viewport_v.div_scalar(pixel_height);
        proof {
            lemma_fx_div_bound(viewport_u.x as int, 131072, 0x2_0000_0000, 131072);
            lemma_fx_div_bound(viewport_v.y as int, 131072, 131072, 131072);
            lemma_fx_div_bound(pixel_delta_u.x as int, 131072, 0x2_0000_0000, 131072);
            lemma_fx_div_bound(pixel_delta_v.y as int, 131072, 131072, 131072);
        }
        let viewport_upper_left: Vec3 = origin.sub(Vec3::new(0, 0, focal_length)).sub(
            viewport_u.div_scalar(2 * FP_ONE),
        ).sub(viewport_v.div_scalar(2 * FP_ONE));
        let pixel00_loc: Vec3 = viewport_upper_left.add(pixel_delta_u.div_scalar(2 * FP_ONE)).add(
            pixel_delta_v.div_scalar(2 * FP_ONE),
        );
        Camera {
            pixel_width,
            pixel_height,
            focal_length,
            origin,
            pixel00_loc,
            pixel_delta_u,
            pixel_delta_v,
        }
    }

    /// The world ray through fractional pixel position `(x, y)`.
    pub fn get_pixel_ray(&self, x: i64, y: i64) -> (r: Ray)
        requires
            camera_wf(*self),
            -0x1_0000_0000 <= x <= 0x1_0000_0000,
            -0x1_0000_0000 <= y <= 0x1_0000_0000,
        ensures
            r == pixel_ray_spec(*self, x as int, y as int),
    {
        proof {
            lemma_fx_mul_bound(self.pixel_delta_u.x as int, x as int, 0x10_0000_0000, 0x1_0000_0000);
            lemma_fx_mul_bound(self.pixel_delta_u.y as int, x as int, 0x10_0000_0000, 0x1_0000_0000);
            lemma_fx_mul_bound(self.pixel_delta_u.z as int, x as int, 0x10_0000_0000, 0x1_0000_0000);
            lemma_fx_mul_bound(self.pixel_delta_v.x as int, y as int, 0x10_0000_0000, 0x1_0000_0000);
            lemma_fx_mul_bound(self.pixel_delta_v.y as int, y as int, 0x10_0000_0000, 0x1_0000_0000);
            lemma_fx_mul_bound(self.pixel_delta_v.z as int, y as int, 0x10_0000_0000, 0x1_0000_0000);
        }
        let pixel_center: Vec3 = self.pixel00_loc.add(self.pixel_delta_u.scale(x)).add(
            self.pixel_delta_v.scale(y),
        );
        Ray::new(self.origin, pixel_center.sub(self.origin))
    }

    /// The color a ray sees: black once the bounce budget is spent, the
    /// scattering recursion on a hit, and the white-to-sky-blue vertical
    /// gradient where the ray escapes to the background. Every channel of
    /// the result is a unit-range color channel, and the whole value is
    /// one the recursive shading relation admits. Rays outside the
    /// well-formed range are treated as absorbed.
    pub fn ray_color(&self, ray: &Ray, depth: i32, world: &HittableList) -> (r: Color)
        requires
            world.wf(),
        ensures
            0 <= r.x <= 65536,
            0 <= r.y <= 65536,
            0 <= r.z <= 65536,
            ray_color_rel(
                world.objects_view(),
                world.materials_view(),
                *ray,
                depth as int,
                r,
            ),
        decreases depth,
    {
        if depth <= 0 {
            return Color::black();
        }
        if !ray_wf_check(ray) {
            return Color::black();
        }
        match world.hit(ray, &Interval::new(0, i64::MAX)) {
            Some(hit) => {
                let material = world.material_at(hit.material);
                match material.scatter(ray, &hit) {
                    Some(scattered) => {
                        let bounced: Color = self.ray_color(&scattered.scattered_ray, depth - 1, world);
                        proof {
                            lemma_unit_scale_bound(scattered.attenuation.x as int, bounced.x as int);
                            lemma_unit_scale_bound(scattered.attenuation.y as int, bounced.y as int);
                            lemma_unit_scale_bound(scattered.attenuation.z as int, bounced.z as int);
                        }
                        let shaded: Color = scattered.attenuation.mul(bounced);
                        proof {
                            assert(scatter_rel(
                                world.materials_view()[hit.material as int],
                                *ray,
                                hit,
                                scattered,
                            ));
                            assert(attenuated_by(shaded, scattered.attenuation, bounced));
                            assert(ray_color_rel(
                                world.objects_view(),
                                world.materials_view(),
                                scattered.scattered_ray,
                                depth - 1,
                                bounced,
                            ));
                        }
                        shaded
                    },
                    None => {
                        proof {
                            // the closed material set always scatters
                            assert(false);
                        }
                        Color::black()
                    },
                }
            },
            None => {
                let unit_direction: Vec3 = ray.direction.normalized();
                let a: i64 = fmul(32768, unit_direction.y + FP_ONE);
                proof {
                    lemma_unit_scale_bound(32768, (unit_direction.y + 65536) as int);
                    lemma_tdiv_bounds(32768 * (unit_direction.y + 65536), 65536);
                    let t = crate::fixed::tdiv(32768 * (unit_direction.y + 65536), 65536);
                    assert(t <= 65536);
                    lemma_unit_scale_bound(65536, 65536 - a as int);
                    lemma_unit_scale_bound(65536, a as int);
                    lemma_unit_scale_bound(32768, 65536 - a as int);
                    lemma_unit_scale_bound(45875, 65536 - a as int);
                    lemma_unit_scale_bound(45875, a as int);
                    lemma_unit_scale_bound(32768, a as int);
                }
                let white: Color = Color::white();
                let sky: Color = Color::new(32768, 45875, 65536);
                let blended: Color = Vec3::lerp(white, sky, a);
                proof {
                    lemma_lerp_unit(white.x as int, sky.x as int, a as int);
                    lemma_lerp_unit(white.y as int, sky.y as int, a as int);
                    lemma_lerp_unit(white.z as int, sky.z as int, a as int);
                    assert(blended == sky_color_spec(*ray));
                }
                blended
            },
        }
    }
}

/// Interpolating between two unit-range channels stays in the unit range.
proof fn lemma_lerp_unit(p: int, q: int, t: int)
    requires
        0 <= p <= 65536,
        0 <= q <= 65536,
        0 <= t <= 65536,
    ensures
        0 <= fx_mul(p, 65536 - t) + fx_mul(q, t) <= 65536,
{
    lemma_unit_scale_bound(p, 65536 - t);
    lemma_unit_scale_bound(q, t);
    lemma_weighted_sum(p, q, t);
}

/// The exact weighted products sum to at most one full unit before
/// rounding, so the rounded parts do too.
proof fn lemma_weighted_sum(p: int, q: int, t: int)
    requires
        0 <= p <= 65536,
        0 <= q <= 65536,
        0 <= t <= 65536,
    ensures
        fx_mul(p, 65536 - t) + fx_mul(q, t) <= 65536,
{
    let u = 65536 - t;
    assert(p * u <= 65536 * u && q * t <= 65536 * t) by (nonlinear_arith)
        requires
            0 <= p <= 65536,
            0 <= q <= 65536,
            0 <= t,
            0 <= u,
    ;
    lemma_tdiv_bounds(p * u, 65536);
    lemma_tdiv_bounds(q * t, 65536);
    assert(p * u >= 0 && q * t >= 0) by (nonlinear_arith)
        requires
            p >= 0,
            q >= 0,
            t >= 0,
            u >= 0,
    ;
    assert(65536 * (fx_mul(p, u) + fx_mul(q, t)) <= 65536 * u + 65536 * t);
}

} // verus!
