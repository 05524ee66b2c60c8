use rats::geometry::Ray;
use rats::geometry::Sphere;
use rats::maths::Interval;
use rats::maths::Vec3;
use rats::scene::HittableList;

const ONE: i64 = 65536;

fn forward_ray() -> Ray {
    // from the origin straight down the negative z axis
    Ray::new(Vec3::zero(), Vec3::new(0, 0, -ONE))
}

fn open_interval() -> Interval {
    Interval::new(0, i64::MAX)
}

#[test]
fn ray_at_walks_along_the_direction() {
    let ray = Ray::new(Vec3::new(ONE, 0, 0), Vec3::new(0, 2 * ONE, 0));
    assert_eq!(ray.at(32768), Vec3::new(ONE, ONE, 0));
}

#[test]
fn sphere_hit_finds_the_near_root() {
    // unit-direction ray, sphere of radius 0.5 centered two units away:
    // both roots are exact and the nearer one is t = 1.5
    let sphere = Sphere::new(Vec3::new(0, 0, -2 * ONE), 32768, 0);
    let hit = sphere.hit(&forward_ray(), &open_interval()).unwrap();
    assert_eq!(hit.t, 98304);
    assert_eq!(hit.point, Vec3::new(0, 0, -98304));
    assert_eq!(hit.normal, Vec3::new(0, 0, ONE));
    assert!(hit.front_face);
}

#[test]
fn sphere_miss_returns_none() {
    // the sphere sits off to the side; the discriminant is negative
    let sphere = Sphere::new(Vec3::new(5 * ONE, 0, -2 * ONE), 32768, 0);
    assert!(sphere.hit(&forward_ray(), &open_interval()).is_none());
}

#[test]
fn sphere_behind_the_ray_is_not_hit() {
    // both roots are negative, outside the open (0, inf) interval
    let sphere = Sphere::new(Vec3::new(0, 0, 2 * ONE), 32768, 0);
    assert!(sphere.hit(&forward_ray(), &open_interval()).is_none());
}

#[test]
fn ray_inside_sphere_exits_through_far_root() {
    // origin inside the sphere: the near root is negative, the far root
    // is taken and the normal is flipped to oppose the ray
    let sphere = Sphere::new(Vec3::zero(), ONE, 0);
    let hit = sphere.hit(&forward_ray(), &open_interval()).unwrap();
    assert_eq!(hit.t, ONE);
    assert!(!hit.front_face);
    assert_eq!(hit.normal, Vec3::new(0, 0, ONE));
}

#[test]
fn interval_can_exclude_the_near_root() {
    // with t limited past the first surface, the far root of the same
    // sphere is reported
    let sphere = Sphere::new(Vec3::new(0, 0, -2 * ONE), 32768, 0);
    let limited = Interval::new(2 * ONE, i64::MAX);
    let hit = sphere.hit(&forward_ray(), &limited).unwrap();
    assert_eq!(hit.t, 163840);
}

#[test]
fn scene_reports_the_nearest_hit_regardless_of_order() {
    let near = Sphere::new(Vec3::new(0, 0, -2 * ONE), 32768, 0);
    let far = Sphere::new(Vec3::new(0, 0, -4 * ONE), 32768, 1);

    let mut world = HittableList::new();
    let m0 = world.add_material(rats::materials::Material::Lambertian(
        rats::materials::Lambertian::new(rats::color::Color::white()),
    ));
    assert_eq!(m0, 0);
    let m1 = world.add_material(rats::materials::Material::Lambertian(
        rats::materials::Lambertian::new(rats::color::Color::black()),
    ));
    world.add(Sphere::new(near.center, near.radius, m0));
    world.add(Sphere::new(far.center, far.radius, m1));
    let hit = world.hit(&forward_ray(), &open_interval()).unwrap();
    assert_eq!(hit.t, 98304);
    assert_eq!(hit.material, m0);

    let mut reversed = HittableList::new();
    let r1 = reversed.add_material(rats::materials::Material::Lambertian(
        rats::materials::Lambertian::new(rats::color::Color::black()),
    ));
    let r0 = reversed.add_material(rats::materials::Material::Lambertian(
        rats::materials::Lambertian::new(rats::color::Color::white()),
    ));
    reversed.add(Sphere::new(far.center, far.radius, r1));
    reversed.add(Sphere::new(near.center, near.radius, r0));
    let hit2 = reversed.hit(&forward_ray(), &open_interval()).unwrap();
    assert_eq!(hit2.t, 98304);
    assert_eq!(hit2.material, r0);
}

#[test]
fn empty_scene_hits_nothing() {
    let world = HittableList::new();
    assert!(world.hit(&forward_ray(), &open_interval()).is_none());
}

#[test]
fn scene_counts_and_clears_objects() {
    let mut world = HittableList::default();
    assert_eq!(world.object_count(), 5);
    world.clear();
    assert_eq!(world.object_count(), 0);
}

#[test]
fn hit_normal_points_outward() {
    let sphere = Sphere::new(Vec3::zero(), ONE, 0);
    assert_eq!(sphere.hit_normal(Vec3::new(0, 0, 3 * ONE)), Vec3::new(0, 0, ONE));
}
