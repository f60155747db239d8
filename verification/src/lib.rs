pub mod fixed;
pub mod rng;
pub mod vec3;
pub mod vec3_utils;
pub mod ray;
pub mod material;
pub mod hittable;
pub mod sphere;
pub mod hittable_list;
pub mod camera;
pub mod color_utils;
pub mod render;
