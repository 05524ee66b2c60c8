use rats::color::Color;
use rats::geometry::HitRecord;
use rats::geometry::Ray;
use rats::materials::Dielectric;
use rats::materials::Lambertian;
use rats::materials::Material;
use rats::materials::Metal;
use rats::maths::Vec3;

const ONE: i64 = 65536;

fn downward_hit() -> (Ray, HitRecord) {
    // a ray going straight down into an upward-facing surface
    let ray = Ray::new(Vec3::new(0, 2 * ONE, 0), Vec3::new(0, -ONE, 0));
    let record = HitRecord::new(Vec3::new(0, ONE, 0), Vec3::new(0, ONE, 0), ONE, &ray, 0);
    (ray, record)
}

#[test]
fn diffuse_scatter_keeps_albedo_and_origin() {
    let albedo = Color::new(100, 200, 300);
    let material = Lambertian::new(albedo);
    let (ray, record) = downward_hit();
    let scattered = material.scatter(&ray, &record).unwrap();
    assert_eq!(scattered.attenuation, albedo);
    assert_eq!(scattered.scattered_ray.origin, record.point);
}

#[test]
fn metal_with_zero_fuzz_mirrors_exactly() {
    let material = Metal::new(Color::new(52429, 39322, 13107), 0);
    let (ray, record) = downward_hit();
    let scattered = material.scatter(&ray, &record).unwrap();
    assert_eq!(scattered.attenuation, Color::new(52429, 39322, 13107));
    assert_eq!(scattered.scattered_ray.origin, record.point);
    // the incoming unit direction (0,-1,0) mirrors to (0,1,0)
    assert_eq!(scattered.scattered_ray.direction, Vec3::new(0, ONE, 0));
}

#[test]
fn matched_index_glass_does_not_bend_head_on_rays() {
    // index 1.0, head-on: the Schlick reflectance is exactly zero, so the
    // refraction branch runs and returns the incoming direction unchanged
    let material = Dielectric::new(ONE);
    let ray = Ray::new(Vec3::zero(), Vec3::new(0, 0, -ONE));
    let record = HitRecord::new(Vec3::new(0, 0, -ONE), Vec3::new(0, 0, ONE), ONE, &ray, 0);
    let scattered = material.scatter(&ray, &record).unwrap();
    assert_eq!(scattered.attenuation, Color::white());
    assert_eq!(scattered.scattered_ray.origin, record.point);
    assert_eq!(scattered.scattered_ray.direction, Vec3::new(0, 0, -ONE));
}

#[test]
fn reflectance_is_schlicks_polynomial() {
    // head-on against glass of index 1.5: r0 = ((1-1.5)/(1+1.5))^2 = 0.04
    // (with fixed-point rounding: 2621 of 65536)
    assert_eq!(Dielectric::reflectance(ONE, 98304), 2621);
    // head-on with matched indices reflects nothing
    assert_eq!(Dielectric::reflectance(ONE, ONE), 0);
}

#[test]
fn material_dispatch_matches_the_variants() {
    let (ray, record) = downward_hit();
    let albedo = Color::new(100, 200, 300);
    let diffuse = Material::Lambertian(Lambertian::new(albedo));
    let s = diffuse.scatter(&ray, &record).unwrap();
    assert_eq!(s.attenuation, albedo);

    let glass = Material::Dielectric(Dielectric::new(98304));
    let s2 = glass.scatter(&ray, &record).unwrap();
    assert_eq!(s2.attenuation, Color::white());
    assert_eq!(s2.scattered_ray.origin, record.point);
}
