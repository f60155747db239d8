// Vector arithmetic: one unit is 65536, so 1.0 is written 65536, 0.5 is
// 32768, and so on.

use path_tracer::vec3::Vec3;
use path_tracer::rng::RandomState;

#[test]
fn test_new_vec3() {
    assert_eq!(Vec3::new(), Vec3::new_with_values(0, 0, 0));
}

#[test]
fn test_new_with_values() {
    assert_eq!(
        Vec3::new_with_values(0, 65536, 131072),
        Vec3::new_with_values(0, 65536, 131072)
    );
}

#[test]
fn test_xyz() {
    let test_vector = Vec3::new_with_values(0, 65536, 131072);
    assert_eq!(test_vector.x(), 0);
    assert_eq!(test_vector.y(), 65536);
    assert_eq!(test_vector.z(), 131072);
}

#[test]
fn test_length_squared() {
    let test_vector = Vec3::new_with_values(131072, 131072, 131072);
    assert_eq!(test_vector.length_squared(), 12 * 65536);
}

#[test]
fn test_length() {
    let test_vector = Vec3::new_with_values(65536, 65536, 65536);
    assert_eq!(test_vector.length(), 113511);
    let test_vector = Vec3::new_with_values(131072, 131072, 131072);
    assert_eq!(test_vector.length(), 227023);
}

#[test]
fn test_add_vectors() {
    let test_vector1 = Vec3::new_with_values(65536, 131072, 196608);
    let test_vector2 = Vec3::new_with_values(65536, 131072, 196608);
    assert_eq!(
        test_vector1.add(test_vector2),
        Vec3::new_with_values(131072, 262144, 393216)
    );
}

#[test]
fn test_mul_vectors() {
    let test_vector1 = Vec3::new_with_values(65536, 131072, 196608);
    let test_vector2 = Vec3::new_with_values(65536, 131072, 196608);
    assert_eq!(
        test_vector1.mul(test_vector2),
        Vec3::new_with_values(65536, 262144, 589824)
    );
    assert_eq!(
        test_vector1.mul_scalar(131072),
        Vec3::new_with_values(131072, 262144, 393216)
    );
    assert_eq!(
        test_vector1.mul_scalar(131072),
        Vec3::new_with_values(131072, 262144, 393216)
    );
}

#[test]
fn test_sub_vectors() {
    let test_vector1 = Vec3::new_with_values(65536, 131072, 196608);
    let test_vector2 = Vec3::new_with_values(65536, 131072, 196608);
    assert_eq!(
        test_vector1.sub(test_vector2),
        Vec3::new_with_values(0, 0, 0)
    );
}

#[test]
fn test_div() {
    let test_vector1 = Vec3::new_with_values(65536, 131072, 196608);
    assert_eq!(
        test_vector1.div_scalar(131072),
        Vec3::new_with_values(32768, 65536, 98304)
    );
}

#[test]
fn test_negation() {
    let test_vector1 = Vec3::new_with_values(65536, 131072, 196608);
    let test_vector_pointer = &test_vector1;
    assert_eq!(
        test_vector1.neg(),
        Vec3::new_with_values(-65536, -131072, -196608)
    );
    assert_eq!(
        (*test_vector_pointer).neg(),
        Vec3::new_with_values(-65536, -131072, -196608)
    );
}

#[test]
fn test_add_assign() {
    let mut test_vector1 = Vec3::new_with_values(65536, 131072, 196608);
    let test_vector2 = Vec3::new_with_values(65536, 131072, 196608);
    test_vector1 = test_vector1.add(test_vector2);
    assert_eq!(test_vector1, Vec3::new_with_values(131072, 262144, 393216));
}

#[test]
fn test_mul_assign() {
    let mut test_vector1 = Vec3::new_with_values(65536, 131072, 196608);
    test_vector1 = test_vector1.mul_scalar(131072);
    assert_eq!(test_vector1, Vec3::new_with_values(131072, 262144, 393216));
}

#[test]
fn test_div_assign() {
    let mut test_vector1 = Vec3::new_with_values(65536, 131072, 196608);
    test_vector1 = test_vector1.div_scalar(131072);
    assert_eq!(test_vector1, Vec3::new_with_values(32768, 65536, 98304));
}

#[test]
fn test_index() {
    let test_vector1 = Vec3::new_with_values(65536, 131072, 196608);
    assert_eq!(test_vector1.index(0), 65536);
    assert_eq!(test_vector1.index(1), 131072);
    assert_eq!(test_vector1.index(2), 196608);
}

#[test]
fn test_random_vec3() {
    let mut rng = RandomState::from_entropy();
    let test_vector1 = Vec3::random_vec3(&mut rng);
    assert!(test_vector1.index(0) > 0);
    assert!(test_vector1.index(1) > 0);
    assert!(test_vector1.index(2) > 0);
}

#[test]
fn test_random_vec3_min_max() {
    let mut rng = RandomState::from_entropy();
    let test_vector1 = Vec3::random_vec3_min_max(&mut rng, 0, 6554);
    assert!(test_vector1.index(0) >= 0 && test_vector1.index(0) < 6554);
    assert!(test_vector1.index(1) >= 0 && test_vector1.index(1) < 6554);
    assert!(test_vector1.index(2) >= 0 && test_vector1.index(2) < 6554);
}

#[test]
fn test_random_in_unit_sphere_terminates() {
    let mut rng = RandomState::from_seed(7);
    for _ in 0..50 {
        let v = Vec3::random_in_unit_sphere(&mut rng);
        assert!(v.length() <= 65536);
    }
}

#[test]
fn test_random_unit_vector_near_unit_length() {
    let mut rng = RandomState::from_seed(9);
    for _ in 0..50 {
        let v = Vec3::random_unit_vector(&mut rng);
        let l = v.length();
        assert!((l - 65536).abs() <= 2);
    }
}

#[test]
fn test_near_zero() {
    assert!(Vec3::new_with_values(0, 0, 0).near_zero());
    assert!(Vec3::new_with_values(255, -255, 100).near_zero());
    assert!(!Vec3::new_with_values(256, 0, 0).near_zero());
    assert!(!Vec3::new_with_values(0, 0, 65536).near_zero());
}
