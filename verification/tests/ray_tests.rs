// Rays: origin, direction, evaluation along the parameter.

use path_tracer::ray::Ray;
use path_tracer::vec3::Vec3;

#[test]
fn test_ray_origin() {
    let ray = Ray {
        orig: Vec3::new_with_values(0, 0, 0),
        dir: Vec3::new_with_values(65536, 0, 0),
    };
    assert_eq!(ray.origin(), Vec3::new());
}

#[test]
fn test_ray_direction() {
    let ray = Ray {
        orig: Vec3::new_with_values(0, 0, 0),
        dir: Vec3::new_with_values(65536, 0, 0),
    };
    assert_eq!(ray.direction(), Vec3::new_with_values(65536, 0, 0));
}

#[test]
fn test_ray_at() {
    let ray = Ray {
        orig: Vec3::new_with_values(0, 0, 0),
        dir: Vec3::new_with_values(65536, 0, 0),
    };
    assert_eq!(ray.at(131072), Vec3::new_with_values(131072, 0, 0));
}
