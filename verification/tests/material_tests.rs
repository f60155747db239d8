// The three scattering models.

use path_tracer::hittable::HitRecord;
use path_tracer::material::{Dielectric, Lambertian, Material, Metal};
use path_tracer::ray::Ray;
use path_tracer::rng::RandomState;
use path_tracer::vec3::Vec3;
use path_tracer::vec3_utils::dot;

fn record(normal: Vec3, front_face: bool, mat: Material) -> HitRecord {
    HitRecord {
        p: Vec3::new_with_values(0, 0, -32768),
        normal,
        t: 32768,
        front_face,
        mat,
    }
}

// Lambertian scattering never reports absorption, across randomized
// normals and incoming directions.
#[test]
fn test_lambertian_never_absorbs() {
    let lam = Lambertian { albedo: Vec3::new_with_values(32768, 16384, 8192) };
    let mut rng = RandomState::from_seed(21);
    for _ in 0..100 {
        let n = Vec3::random_unit_vector(&mut rng);
        let d = Vec3::random_vec3_min_max(&mut rng, -65536, 65536);
        let rec = record(n, true, Material::Lambertian(lam));
        let r_in = Ray { orig: Vec3::new(), dir: d };
        let out = lam.scatter(&r_in, &rec, &mut rng);
        assert!(out.is_some());
        let (scattered, attenuation) = out.unwrap();
        assert_eq!(attenuation, lam.albedo);
        assert_eq!(scattered.orig, rec.p);
    }
}

// Metal with fuzz zero is deterministic: the scattered direction equals
// the analytic reflection off a mirror-aligned normal.
#[test]
fn test_metal_zero_fuzz_deterministic() {
    let met = Metal { albedo: Vec3::new_with_values(58982, 52428, 45875), fuzz: 0 };
    let n = Vec3::new_with_values(0, 0, 65536);
    let rec = record(n, true, Material::Metal(met));
    let r_in = Ray {
        orig: Vec3::new_with_values(0, 0, 0),
        dir: Vec3::new_with_values(0, 0, -131072),
    };
    let mut rng1 = RandomState::from_seed(1);
    let mut rng2 = RandomState::from_seed(999);
    let (s1, a1) = met.scatter(&r_in, &rec, &mut rng1).unwrap();
    let (s2, a2) = met.scatter(&r_in, &rec, &mut rng2).unwrap();
    assert_eq!(s1.dir, Vec3::new_with_values(0, 0, 65536));
    assert_eq!(s1.dir, s2.dir);
    assert_eq!(a1, met.albedo);
    assert_eq!(a2, met.albedo);
}

// A fuzzed metal ray that lands under the surface is absorbed; grazing
// incidence with strong fuzz gives absorption for some draws.
#[test]
fn test_metal_scatter_above_surface_or_absorbed() {
    let met = Metal { albedo: Vec3::new_with_values(58982, 52428, 45875), fuzz: 65536 };
    let n = Vec3::new_with_values(0, 0, 65536);
    let rec = record(n, true, Material::Metal(met));
    let r_in = Ray {
        orig: Vec3::new_with_values(0, 0, 0),
        dir: Vec3::new_with_values(65536, 0, -328),
    };
    let mut rng = RandomState::from_seed(5);
    let mut absorbed = 0;
    let mut scattered_count = 0;
    for _ in 0..200 {
        match met.scatter(&r_in, &rec, &mut rng) {
            Some((scattered, _)) => {
                scattered_count += 1;
                assert!(dot(&scattered.direction(), &rec.normal) > 0);
            }
            None => absorbed += 1,
        }
    }
    assert!(absorbed > 0);
    assert!(scattered_count > 0);
}

// A matched-index dielectric never absorbs and never reaches total
// internal reflection; a head-on ray passes through undeviated.
#[test]
fn test_dielectric_matched_index_passes_through() {
    let die = Dielectric { ir: 65536 };
    let n = Vec3::new_with_values(0, 0, 65536);
    let rec = record(n, true, Material::Dielectric(die));
    let r_in = Ray {
        orig: Vec3::new_with_values(0, 0, 0),
        dir: Vec3::new_with_values(0, 0, -196608),
    };
    let mut rng = RandomState::from_seed(3);
    let (scattered, attenuation) = die.scatter(&r_in, &rec, &mut rng).unwrap();
    assert_eq!(scattered.dir, Vec3::new_with_values(0, 0, -65536));
    assert_eq!(attenuation, Vec3::new_with_values(65536, 65536, 65536));
}

// At matched index the Schlick draw is bypassed: oblique incidence
// refracts identically whatever the random stream.
#[test]
fn test_dielectric_matched_index_oblique_deterministic() {
    let die = Dielectric { ir: 65536 };
    let n = Vec3::new_with_values(0, 0, 65536);
    let rec = record(n, true, Material::Dielectric(die));
    let r_in = Ray {
        orig: Vec3::new_with_values(0, 0, 0),
        dir: Vec3::new_with_values(32768, 0, -56756),
    };
    let mut rng1 = RandomState::from_seed(2);
    let mut rng2 = RandomState::from_seed(12345);
    let (s1, _) = die.scatter(&r_in, &rec, &mut rng1).unwrap();
    let (s2, _) = die.scatter(&r_in, &rec, &mut rng2).unwrap();
    assert_eq!(s1.dir, s2.dir);
    // the refracted direction keeps pointing into the surface
    assert!(s1.dir.z < 0);
}

// Dielectric attenuation is always opaque white, from either side.
#[test]
fn test_dielectric_always_scatters_white() {
    let die = Dielectric { ir: 98304 };
    let n = Vec3::new_with_values(0, 0, 65536);
    let mut rng = RandomState::from_seed(17);
    for front in [true, false] {
        let rec = record(n, front, Material::Dielectric(die));
        let r_in = Ray {
            orig: Vec3::new_with_values(0, 0, 0),
            dir: Vec3::new_with_values(32768, 0, -56756),
        };
        let out = die.scatter(&r_in, &rec, &mut rng);
        assert!(out.is_some());
        let (_, attenuation) = out.unwrap();
        assert_eq!(attenuation, Vec3::new_with_values(65536, 65536, 65536));
    }
}
