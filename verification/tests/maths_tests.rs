// Vector arithmetic in the fixed-point carrier: 65536 stands for 1.0, so
// the classic integer-valued vectors scale by that factor.

use rats::maths::Interval;
use rats::maths::Vec3;

const ONE: i64 = 65536;

#[test]
fn it_creates_a_new_instance() {
    let vec = Vec3::new(1 * ONE, 2 * ONE, 3 * ONE);
    assert_eq!(vec.x, 1 * ONE);
    assert_eq!(vec.y, 2 * ONE);
    assert_eq!(vec.z, 3 * ONE);
}

#[test]
fn it_adds_two_vectors() {
    let vec_1 = Vec3::new(1 * ONE, 2 * ONE, 3 * ONE);
    let vec_2 = Vec3::new(4 * ONE, 5 * ONE, 6 * ONE);
    let result = vec_1.add(vec_2);
    assert_eq!(result, Vec3::new(5 * ONE, 7 * ONE, 9 * ONE));
}

#[test]
fn it_subtracts_two_vectors() {
    let vec_1 = Vec3::new(4 * ONE, 5 * ONE, 6 * ONE);
    let vec_2 = Vec3::new(1 * ONE, 2 * ONE, 3 * ONE);
    let result = vec_1.sub(vec_2);
    assert_eq!(result, Vec3::new(3 * ONE, 3 * ONE, 3 * ONE));
}

#[test]
fn it_multiplies_two_vectors() {
    let vec_1 = Vec3::new(1 * ONE, 2 * ONE, 3 * ONE);
    let vec_2 = Vec3::new(4 * ONE, 5 * ONE, 6 * ONE);
    let result = vec_1.mul(vec_2);
    assert_eq!(result, Vec3::new(4 * ONE, 10 * ONE, 18 * ONE));
}

#[test]
fn it_divides_two_vectors() {
    let vec_1 = Vec3::new(4 * ONE, 10 * ONE, 18 * ONE);
    let vec_2 = Vec3::new(4 * ONE, 5 * ONE, 6 * ONE);
    let result = vec_1.div(vec_2);
    assert_eq!(result, Vec3::new(1 * ONE, 2 * ONE, 3 * ONE));
}

#[test]
fn it_adds_a_scalar_to_a_vector() {
    let vec = Vec3::new(1 * ONE, 2 * ONE, 3 * ONE);
    let result = vec.add_scalar(1 * ONE);
    assert_eq!(result, Vec3::new(2 * ONE, 3 * ONE, 4 * ONE));
}

#[test]
fn it_subtracts_a_scalar_from_a_vector() {
    let vec = Vec3::new(4 * ONE, 5 * ONE, 6 * ONE);
    let result = vec.sub_scalar(1 * ONE);
    assert_eq!(result, Vec3::new(3 * ONE, 4 * ONE, 5 * ONE));
}

#[test]
fn it_multiplies_a_vector_by_a_scalar() {
    let vec = Vec3::new(1 * ONE, 2 * ONE, 3 * ONE);
    let result = vec.scale(2 * ONE);
    assert_eq!(result, Vec3::new(2 * ONE, 4 * ONE, 6 * ONE));
}

#[test]
fn it_divides_a_vector_by_a_scalar() {
    let vec = Vec3::new(4 * ONE, 10 * ONE, 18 * ONE);
    let result = vec.div_scalar(2 * ONE);
    assert_eq!(result, Vec3::new(2 * ONE, 5 * ONE, 9 * ONE));
}

#[test]
fn it_calculates_the_cross_product() {
    let vec_1 = Vec3::new(1 * ONE, 0, 0);
    let vec_2 = Vec3::new(0, 1 * ONE, 0);
    let result = vec_1.cross(vec_2);
    assert_eq!(result, Vec3::new(0, 0, 1 * ONE));
}

#[test]
fn it_calculates_the_length() {
    // |(1,2,3)| = sqrt(14); 65536 * sqrt(14) rounds down to 245213
    let vec = Vec3::new(1 * ONE, 2 * ONE, 3 * ONE);
    let result = vec.length();
    assert_eq!(result, 245213);
}

#[test]
fn it_calculates_the_squared_length() {
    let vec = Vec3::new(1 * ONE, 2 * ONE, 3 * ONE);
    let result = vec.length_squared();
    assert_eq!(result, 14 * ONE);
}

#[test]
fn it_normalizes_a_vector() {
    // each component is (component << 16) / 245213, rounded toward zero
    let vec = Vec3::new(1 * ONE, 2 * ONE, 3 * ONE);
    let result = vec.normalized();
    assert_eq!(result, Vec3::new(17515, 35030, 52545));
}

#[test]
fn it_creates_a_zero_vector() {
    let vec = Vec3::zero();
    assert_eq!(vec, Vec3::new(0, 0, 0));
}

#[test]
fn normalizing_zero_leaves_zero() {
    assert_eq!(Vec3::zero().normalized(), Vec3::zero());
}

#[test]
fn reflection_mirrors_about_the_normal() {
    // a straight-down direction about an upward normal comes back up
    let v = Vec3::new(0, -ONE, 0);
    let n = Vec3::new(0, ONE, 0);
    assert_eq!(rats::maths::reflect(v, n), Vec3::new(0, ONE, 0));
}

#[test]
fn interval_membership_is_inclusive_and_strict() {
    let itv = Interval::new(0, 10);
    assert!(itv.contains(0));
    assert!(itv.contains(10));
    assert!(!itv.contains(11));
    assert!(!itv.surrounds(0));
    assert!(itv.surrounds(5));
    assert!(!itv.surrounds(10));
}

#[test]
fn interval_clamps_to_its_ends() {
    let itv = Interval::new(0, 10);
    assert_eq!(itv.clamp(-3), 0);
    assert_eq!(itv.clamp(4), 4);
    assert_eq!(itv.clamp(11), 10);
}

#[test]
fn empty_and_universe_are_opposite_extremes() {
    let empty = Interval::empty();
    let universe = Interval::universe();
    assert!(!empty.contains(0));
    assert!(universe.contains(0));
    assert!(universe.contains(i64::MIN));
    assert_eq!(Interval::default(), universe);
}
