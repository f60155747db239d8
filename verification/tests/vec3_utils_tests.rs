// Free vector functions: products, normalization, reflection, refraction.

use path_tracer::vec3::Vec3;
use path_tracer::vec3_utils::{cross, dot, min, random_in_unit_disk, reflect, refract, unit_vector};
use path_tracer::rng::RandomState;

#[test]
fn test_dot() {
    let test_vector = Vec3 { x: 65536, y: 65536, z: 65536 };
    assert_eq!(dot(&test_vector, &test_vector), 3 * 65536);
    let test_vector2 = Vec3 { x: 65536, y: 131072, z: 196608 };
    assert_eq!(dot(&test_vector, &test_vector2), 6 * 65536);
}

#[test]
fn test_cross_itself() {
    let test_vector = Vec3 { x: 65536, y: 65536, z: 65536 };
    let test_vector2 = Vec3 { x: 65536, y: 65536, z: 65536 };
    let zero_vector = Vec3 { x: 0, y: 0, z: 0 };
    assert_eq!(cross(&test_vector, &test_vector2), zero_vector);
}

#[test]
fn test_cross_orthogonal() {
    let x_vector = Vec3 { x: 65536, y: 0, z: 0 };
    let y_vector2 = Vec3 { x: 0, y: 65536, z: 0 };
    let z_vector = Vec3 { x: 0, y: 0, z: 65536 };
    assert_eq!(cross(&x_vector, &y_vector2), z_vector);
}

#[test]
fn test_unit_vector() {
    let test_vector = Vec3 { x: 65536, y: 65536, z: 65536 };
    assert_eq!(
        unit_vector(test_vector),
        test_vector.div_scalar(test_vector.length())
    );
    assert_eq!(
        unit_vector(test_vector),
        Vec3 { x: 37837, y: 37837, z: 37837 }
    );
}

#[test]
fn test_min() {
    assert_eq!(min(3, 5), 3);
    assert_eq!(min(5, 3), 3);
    assert_eq!(min(-65536, 65536), -65536);
}

// Reflection about an axis-aligned unit normal satisfies the incidence law
// exactly: dot(reflect(v, n), n) == -dot(v, n).
#[test]
fn test_reflect_incidence_axis_normal() {
    let n = Vec3 { x: 0, y: 0, z: 65536 };
    let v = Vec3 { x: 12345, y: 678, z: -90123 };
    let r = reflect(&v, &n);
    assert_eq!(dot(&r, &n), -dot(&v, &n));
    assert_eq!(r, Vec3 { x: 12345, y: 678, z: 90123 });
}

// A mirror-aligned incoming direction reflects back along the normal.
#[test]
fn test_reflect_head_on() {
    let n = Vec3 { x: 0, y: 0, z: 65536 };
    let v = Vec3 { x: 0, y: 0, z: -65536 };
    assert_eq!(reflect(&v, &n), Vec3 { x: 0, y: 0, z: 65536 });
}

// A matched index ratio of one refracts a head-on ray straight through.
#[test]
fn test_refract_matched_head_on() {
    let n = Vec3 { x: 0, y: 0, z: 65536 };
    let uv = Vec3 { x: 0, y: 0, z: -65536 };
    assert_eq!(refract(&uv, &n, 65536), uv);
}

// Normalizing an exactly-unit vector changes nothing; normalizing twice
// stays within one step of the scale everywhere.
#[test]
fn test_unit_vector_idempotent() {
    let axis = Vec3 { x: 0, y: 65536, z: 0 };
    assert_eq!(unit_vector(axis), axis);
    assert_eq!(unit_vector(unit_vector(axis)), unit_vector(axis));
    let v = Vec3 { x: 65536, y: 65536, z: 65536 };
    let u = unit_vector(v);
    assert_eq!(unit_vector(u), u);
    let w = Vec3 { x: 65201, y: 68306, z: 9622 };
    let u1 = unit_vector(w);
    let u2 = unit_vector(u1);
    assert!((u1.x - u2.x).abs() <= 1);
    assert!((u1.y - u2.y).abs() <= 1);
    assert!((u1.z - u2.z).abs() <= 1);
}

#[test]
fn test_random_in_unit_disk_in_plane() {
    let mut rng = RandomState::from_seed(11);
    for _ in 0..50 {
        let p = random_in_unit_disk(&mut rng);
        assert_eq!(p.z, 0);
        assert!(p.length_squared() < 65536);
    }
}
