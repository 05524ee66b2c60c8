use rats::random::random_double;
use rats::random::random_double_range;
use rats::random::random_vec3;
use rats::random::random_vec3_on_hemisphere;
use rats::random::random_vec3_unit;
use rats::maths::Vec3;

#[test]
fn random_double_stays_in_the_unit_interval() {
    for _ in 0..1000 {
        let r = random_double();
        assert!(0 <= r && r < 65536);
    }
}

#[test]
fn random_double_range_stays_in_its_range() {
    for _ in 0..1000 {
        let r = random_double_range(-65536, 65536);
        assert!(-65536 <= r && r < 65536);
    }
}

#[test]
fn random_vec3_channels_stay_in_the_unit_interval() {
    for _ in 0..100 {
        let v = random_vec3();
        assert!(0 <= v.x && v.x < 65536);
        assert!(0 <= v.y && v.y < 65536);
        assert!(0 <= v.z && v.z < 65536);
    }
}

#[test]
fn random_unit_vectors_are_bounded_and_nonzero() {
    for _ in 0..100 {
        let v = random_vec3_unit();
        assert!(-65536 <= v.x && v.x <= 65536);
        assert!(-65536 <= v.y && v.y <= 65536);
        assert!(-65536 <= v.z && v.z <= 65536);
        assert!(v != Vec3::zero());
    }
}

#[test]
fn hemisphere_samples_stay_bounded_and_oriented() {
    let normal = Vec3::new(0, 65536, 0);
    for _ in 0..100 {
        let v = random_vec3_on_hemisphere(normal);
        assert!(-65536 <= v.x && v.x <= 65536);
        assert!(-65536 <= v.y && v.y <= 65536);
        assert!(-65536 <= v.z && v.z <= 65536);
        // never strictly opposes the normal
        assert!(v.dot(normal) >= 0);
    }
}
