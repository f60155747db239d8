// The path integrator, the render driver, and color output.

use path_tracer::camera::Camera;
use path_tracer::color_utils::{convert_vec3_to_color, gamma_correct};
use path_tracer::hittable_list::HittableList;
use path_tracer::material::{Lambertian, Material};
use path_tracer::ray::Ray;
use path_tracer::render::{ray_color, render_image, render_row, RenderConfig};
use path_tracer::rng::RandomState;
use path_tracer::sphere::Sphere;
use path_tracer::vec3::Vec3;

fn one_sphere_scene() -> HittableList {
    let mut world = HittableList::new();
    world.add(Sphere::new(
        Vec3::new_with_values(0, 0, -131072),
        65536,
        Material::Lambertian(Lambertian {
            albedo: Vec3::new_with_values(32768, 32768, 32768),
        }),
    ));
    world
}

// Depth exhaustion: a zero depth budget yields exactly black, whatever the
// scene holds.
#[test]
fn test_ray_color_depth_exhausted_black() {
    let world = one_sphere_scene();
    let ray = Ray {
        orig: Vec3::new_with_values(0, 0, 0),
        dir: Vec3::new_with_values(0, 0, -65536),
    };
    let mut rng = RandomState::from_seed(1);
    assert_eq!(
        ray_color(&ray, &world, 0, &mut rng),
        Vec3::new_with_values(0, 0, 0)
    );
    assert_eq!(
        ray_color(&ray, &world, -3, &mut rng),
        Vec3::new_with_values(0, 0, 0)
    );
}

// A ray aimed away from all geometry sees the sky gradient; straight up
// the blend parameter is one and the result is pure sky blue.
#[test]
fn test_ray_color_sky_straight_up() {
    let world = HittableList::new();
    let ray = Ray {
        orig: Vec3::new_with_values(0, 0, 0),
        dir: Vec3::new_with_values(0, 65536, 0),
    };
    let mut rng = RandomState::from_seed(1);
    assert_eq!(
        ray_color(&ray, &world, 50, &mut rng),
        Vec3::new_with_values(32768, 45875, 65536)
    );
}

// Straight down the blend parameter is zero and the result is pure white.
#[test]
fn test_ray_color_sky_straight_down() {
    let world = HittableList::new();
    let ray = Ray {
        orig: Vec3::new_with_values(0, 0, 0),
        dir: Vec3::new_with_values(0, -65536, 0),
    };
    let mut rng = RandomState::from_seed(1);
    assert_eq!(
        ray_color(&ray, &world, 50, &mut rng),
        Vec3::new_with_values(65536, 65536, 65536)
    );
}

fn test_camera() -> Camera {
    Camera::new(
        Vec3::new_with_values(0, 0, 0),
        Vec3::new_with_values(0, 0, -65536),
        Vec3::new_with_values(0, 65536, 0),
        65536,
        65536,
        0,
        65536,
    )
}

// End-to-end: a one-by-one image of one diffuse sphere dead ahead, one
// sample, depth one, with a seeded random source, renders the same pixel
// value on every run.
#[test]
fn test_render_single_pixel_deterministic() {
    let world = one_sphere_scene();
    let cam = test_camera();
    let cfg = RenderConfig {
        image_width: 1,
        image_height: 1,
        samples_per_pixel: 1,
        max_depth: 1,
    };
    let mut rng1 = RandomState::from_seed(42);
    let img1 = render_image(&world, &cam, &cfg, &mut rng1);
    let mut rng2 = RandomState::from_seed(42);
    let img2 = render_image(&world, &cam, &cfg, &mut rng2);
    assert_eq!(img1.len(), 1);
    assert_eq!(img1[0].len(), 1);
    assert_eq!(img1[0][0], img2[0][0]);
    let mut rng3 = RandomState::from_seed(42);
    let row = render_row(&world, &cam, &cfg, 0, &mut rng3);
    assert_eq!(row[0], img1[0][0]);
}

// A larger deterministic render: same seed, same image.
#[test]
fn test_render_image_reproducible() {
    let world = one_sphere_scene();
    let cam = test_camera();
    let cfg = RenderConfig {
        image_width: 4,
        image_height: 3,
        samples_per_pixel: 2,
        max_depth: 4,
    };
    let mut rng1 = RandomState::from_seed(7);
    let mut rng2 = RandomState::from_seed(7);
    let img1 = render_image(&world, &cam, &cfg, &mut rng1);
    let img2 = render_image(&world, &cam, &cfg, &mut rng2);
    assert_eq!(img1, img2);
    assert_eq!(img1.len(), 3);
    assert!(img1.iter().all(|r| r.len() == 4));
}

// Gamma 2.0: one quarter maps to one half, the ends stay fixed.
#[test]
fn test_gamma_correct() {
    let v = Vec3::new_with_values(16384, 65536, 0);
    assert_eq!(gamma_correct(&v), Vec3::new_with_values(32768, 65536, 0));
}

// Quantization scales by 255 and saturates at both ends.
#[test]
fn test_convert_vec3_to_color() {
    assert_eq!(
        convert_vec3_to_color(Vec3::new_with_values(65536, 32768, 0)),
        (255, 127, 0)
    );
    assert_eq!(
        convert_vec3_to_color(Vec3::new_with_values(131072, -5, 65536)),
        (255, 0, 255)
    );
}

// The seeded generator replays its stream; different seeds diverge.
#[test]
fn test_random_state_deterministic() {
    let mut a = RandomState::from_seed(5);
    let mut b = RandomState::from_seed(5);
    let mut c = RandomState::from_seed(6);
    let xs: Vec<u64> = (0..8).map(|_| a.next_u64()).collect();
    let ys: Vec<u64> = (0..8).map(|_| b.next_u64()).collect();
    let zs: Vec<u64> = (0..8).map(|_| c.next_u64()).collect();
    assert_eq!(xs, ys);
    assert_ne!(xs, zs);
}

#[test]
fn test_random_f64() {
    let mut rng = RandomState::from_entropy();
    assert!(rng.next_fixed() > 0);
}

#[test]
fn test_random_f64_range() {
    let mut rng = RandomState::from_entropy();
    let number = rng.next_fixed_range(0, 6554);
    assert!(number >= 0 && number < 6554);
}
