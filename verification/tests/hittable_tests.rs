// Hit records, sphere intersection, and the composite scene hit test.

use path_tracer::hittable::HitRecord;
use path_tracer::hittable_list::HittableList;
use path_tracer::material::{Lambertian, Material};
use path_tracer::ray::Ray;
use path_tracer::sphere::Sphere;
use path_tracer::vec3::Vec3;
use path_tracer::vec3_utils::dot;

fn gray() -> Material {
    Material::Lambertian(Lambertian {
        albedo: Vec3::new_with_values(32768, 32768, 32768),
    })
}

#[test]
fn test_set_face_normal() {
    let mut hr = HitRecord {
        p: Vec3::new(),
        normal: Vec3::new(),
        t: 65536,
        front_face: false,
        mat: gray(),
    };
    let ray = Ray {
        orig: Vec3::new_with_values(0, 0, 0),
        dir: Vec3::new_with_values(0, 0, 65536),
    };
    let outward_normal = Vec3::new_with_values(65536, 0, 0);
    hr.set_face_normal(&ray, &outward_normal);
    assert_eq!(hr.front_face, false);
    assert_eq!(hr.normal, outward_normal.neg());
}

// A ray from the origin toward a sphere of radius one half centered two
// units away hits at the analytic near root.
#[test]
fn test_sphere_hit_near_root() {
    let sphere = Sphere::new(Vec3::new_with_values(0, 0, -65536), 32768, gray());
    let ray = Ray {
        orig: Vec3::new_with_values(0, 0, 0),
        dir: Vec3::new_with_values(0, 0, -65536),
    };
    let rec = sphere.hit(&ray, 0, 0x40_0000_0000).unwrap();
    assert_eq!(rec.t, 32768);
    assert_eq!(rec.p, Vec3::new_with_values(0, 0, -32768));
    assert_eq!(rec.normal, Vec3::new_with_values(0, 0, 65536));
    assert!(rec.front_face);
}

// From inside the sphere the smaller root is behind the origin, so the
// larger root is taken and the stored normal is flipped inward.
#[test]
fn test_sphere_hit_from_inside() {
    let sphere = Sphere::new(Vec3::new_with_values(0, 0, -65536), 32768, gray());
    let ray = Ray {
        orig: Vec3::new_with_values(0, 0, -65536),
        dir: Vec3::new_with_values(0, 0, -65536),
    };
    let rec = sphere.hit(&ray, 0, 0x40_0000_0000).unwrap();
    assert_eq!(rec.t, 32768);
    assert!(!rec.front_face);
    assert!(dot(&rec.normal, &ray.direction()) <= 0);
}

// The stored normal always opposes the incoming direction.
#[test]
fn test_hit_normal_opposes_ray() {
    let sphere = Sphere::new(Vec3::new_with_values(131072, -65536, -262144), 65536, gray());
    let dirs = [
        Vec3::new_with_values(65536, -32768, -131072),
        Vec3::new_with_values(32768, -16384, -65536),
        Vec3::new_with_values(98304, -49152, -196608),
    ];
    for d in dirs.iter() {
        if let Some(rec) = sphere.hit(&Ray { orig: Vec3::new(), dir: *d }, 66, 0x40_0000_0000) {
            assert!(dot(&rec.normal, d) <= 0);
            let l = rec.normal.length();
            assert!((l - 65536).abs() <= 16);
        }
    }
}

#[test]
fn test_sphere_miss() {
    let sphere = Sphere::new(Vec3::new_with_values(0, 0, -131072), 32768, gray());
    let ray = Ray {
        orig: Vec3::new_with_values(0, 0, 0),
        dir: Vec3::new_with_values(0, 65536, 0),
    };
    assert!(sphere.hit(&ray, 66, 0x40_0000_0000).is_none());
}

// An empty scene reports no intersection for any ray.
#[test]
fn test_empty_scene_no_hit() {
    let world = HittableList::new();
    let ray = Ray {
        orig: Vec3::new_with_values(0, 0, 0),
        dir: Vec3::new_with_values(0, 65536, 0),
    };
    assert!(world.hit(&ray, 66, 0x40_0000_0000).is_none());
}

// With two spheres along the same ray the nearer one wins, in either
// insertion order.
#[test]
fn test_scene_closest_hit_wins() {
    let near = Sphere::new(Vec3::new_with_values(0, 0, -131072), 32768, gray());
    let far = Sphere::new(Vec3::new_with_values(0, 0, -327680), 32768, gray());
    let ray = Ray {
        orig: Vec3::new_with_values(0, 0, 0),
        dir: Vec3::new_with_values(0, 0, -65536),
    };
    let mut world = HittableList::new();
    world.add(near);
    world.add(far);
    let rec = world.hit(&ray, 66, 0x40_0000_0000).unwrap();
    assert_eq!(rec.t, 98304);
    let mut world2 = HittableList::new();
    world2.add(far);
    world2.add(near);
    let rec2 = world2.hit(&ray, 66, 0x40_0000_0000).unwrap();
    assert_eq!(rec2.t, 98304);
}

#[test]
fn test_clear_empties_scene() {
    let mut world = HittableList::new();
    world.add(Sphere::new(Vec3::new_with_values(0, 0, -131072), 32768, gray()));
    world.clear();
    let ray = Ray {
        orig: Vec3::new_with_values(0, 0, 0),
        dir: Vec3::new_with_values(0, 0, -65536),
    };
    assert!(world.hit(&ray, 66, 0x40_0000_0000).is_none());
}
