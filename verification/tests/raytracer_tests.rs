use raytracer::camera::Camera;
use raytracer::codec::{quantize, quantize_buffer, unquantize, unquantize_buffer};
use raytracer::geometry::Sphere;
use raytracer::integrator::{ray_color, T_MAX};
use raytracer::material::{Dielectric, Lambertian, Material, Metal};
use raytracer::object::Object;
use raytracer::ray::Ray;
use raytracer::render::{render, worker, worker_buffer};
use raytracer::rng::{default_seeds, Rng};
use raytracer::scene::{create_camera, create_scene, random_range, random_vector};
use raytracer::vec3::Vec3;

const S: i64 = 65536;

fn unit_sphere_scene(material: Material) -> Vec<Object> {
    vec![Object::new(Sphere::new(Vec3::new(0, 0, 0), S), material)]
}

fn white_diffuse() -> Material {
    Material::Lambertian(Lambertian::new(Vec3::new(S, S, S)))
}

#[test]
fn sphere_hit_head_on() {
    // From (0,0,5) toward the origin: the near root is at t = 4 exactly.
    let s = Sphere::new(Vec3::new(0, 0, 0), S);
    let t = s.intersect(Vec3::new(0, 0, 5 * S), Vec3::new(0, 0, -S), 1, T_MAX);
    assert_eq!(t, Some(4 * S));
}

#[test]
fn sphere_hit_point_lies_on_surface() {
    let s = Sphere::new(Vec3::new(0, 0, 0), S);
    let ray = Ray::new(Vec3::new(0, 0, 5 * S), Vec3::new(0, 0, -S));
    let t = s.intersect(ray.origin, ray.direction, 1, T_MAX).unwrap();
    let p = ray.at(t);
    assert_eq!((p.x, p.y, p.z), (0, 0, S));
    let dist_sq = (p.x as i128) * (p.x as i128) + (p.y as i128) * (p.y as i128)
        + (p.z as i128) * (p.z as i128);
    assert_eq!(dist_sq, (S as i128) * (S as i128));
    let n = s.normal(p);
    assert_eq!((n.x, n.y, n.z), (0, 0, S));
}

#[test]
fn sphere_hit_respects_range() {
    // Raising the lower end of the range past the near root selects the
    // far root; past both, the ray misses.
    let s = Sphere::new(Vec3::new(0, 0, 0), S);
    let o = Vec3::new(0, 0, 5 * S);
    let d = Vec3::new(0, 0, -S);
    assert_eq!(s.intersect(o, d, 300000, T_MAX), Some(6 * S));
    assert_eq!(s.intersect(o, d, 500000, T_MAX), None);
    assert_eq!(s.intersect(o, d, 1, 200000), None);
}

#[test]
fn sphere_tangent_ray_misses() {
    // A grazing ray has a zero discriminant and counts as a miss.
    let s = Sphere::new(Vec3::new(0, 0, 0), S);
    assert_eq!(s.intersect(Vec3::new(0, S, 5 * S), Vec3::new(0, 0, -S), 1, T_MAX), None);
}

#[test]
fn sphere_behind_ray_misses() {
    let s = Sphere::new(Vec3::new(0, 0, 0), S);
    assert_eq!(s.intersect(Vec3::new(0, 0, 5 * S), Vec3::new(0, 0, S), 1, T_MAX), None);
}

#[test]
fn camera_ray_direction_is_unit() {
    // The produced direction's squared norm is one to within 8/SCALE.
    let cam = create_camera();
    let mut rng = Rng::from_seed(11);
    for (u, v) in [(0i64, 0i64), (S, S), (S / 2, S / 2), (12345, 54321)] {
        let ray = cam.ray_at(u, v, &mut rng);
        let d = ray.direction();
        let q = (d.x as i128) * (d.x as i128) + (d.y as i128) * (d.y as i128)
            + (d.z as i128) * (d.z as i128);
        let unit = (S as i128) * (S as i128);
        assert!(q >= unit - 524291, "direction too short: {}", q);
        assert!(q <= unit + 524291, "direction too long: {}", q);
    }
}

#[test]
fn camera_origin_stays_on_lens() {
    // Zero aperture pins the ray origin to the camera origin.
    let cam = Camera::look_at(
        Vec3::new(0, 0, 5 * S),
        &Vec3::new(0, 0, 0),
        &Vec3::new(0, S, 0),
        11557,
        98304,
        0,
        5 * S,
    );
    let mut rng = Rng::from_seed(3);
    let ray = cam.ray_at(S / 2, S / 2, &mut rng);
    assert_eq!((ray.origin.x, ray.origin.y, ray.origin.z), (0, 0, 5 * S));
}

#[test]
fn dielectric_unit_index_transmits_head_on() {
    // Index 1: no total internal reflection and zero base reflectance, so
    // a head-on ray passes through unchanged, with no attenuation.
    let m = Material::Dielectric(Dielectric::new(S));
    for seed in [1u64, 99, 12345] {
        let mut rng = Rng::from_seed(seed);
        let (ray, att) = m.scatter(
            Vec3::new(0, 0, S),
            Vec3::new(0, 0, -S),
            Vec3::new(0, 0, S),
            true,
            &mut rng,
        );
        assert_eq!((ray.direction.x, ray.direction.y, ray.direction.z), (0, 0, -S));
        assert_eq!((att.x, att.y, att.z), (S, S, S));
    }
}

#[test]
fn metal_zero_fuzz_mirrors() {
    let m = Material::Metal(Metal::new(Vec3::new(45875, 39322, 32768), 0));
    let mut rng = Rng::from_seed(5);
    let (ray, att) = m.scatter(
        Vec3::new(0, 0, S),
        Vec3::new(0, 0, -S),
        Vec3::new(0, 0, S),
        true,
        &mut rng,
    );
    assert_eq!((ray.direction.x, ray.direction.y, ray.direction.z), (0, 0, S));
    assert_eq!((att.x, att.y, att.z), (45875, 39322, 32768));
}

#[test]
fn empty_scene_gives_background_gradient() {
    // t = (y/|d| + 1)/2 = 1/2 for a horizontal ray: the blend of white
    // and (0.5, 0.7, 1.0) at one half, exactly as the formula rounds.
    let scene: Vec<Object> = Vec::new();
    let ray = Ray::new(Vec3::new(0, 0, 0), Vec3::new(0, 0, -S));
    for depth in [1u32, 2, 20] {
        let mut rng = Rng::from_seed(77);
        let c = ray_color(&scene, &ray, depth, &mut rng);
        assert_eq!((c.x, c.y, c.z), (49152, 55705, 65536));
        // The miss path draws nothing from the random stream.
        assert_eq!(rng.state, Rng::from_seed(77).state);
    }
}

#[test]
fn depth_zero_is_black() {
    let scene = unit_sphere_scene(white_diffuse());
    let ray = Ray::new(Vec3::new(0, 0, 5 * S), Vec3::new(0, 0, -S));
    let mut rng = Rng::from_seed(123);
    let c = ray_color(&scene, &ray, 0, &mut rng);
    assert_eq!((c.x, c.y, c.z), (0, 0, 0));
    let empty: Vec<Object> = Vec::new();
    let mut rng2 = Rng::from_seed(123);
    let c2 = ray_color(&empty, &ray, 0, &mut rng2);
    assert_eq!((c2.x, c2.y, c2.z), (0, 0, 0));
}

#[test]
fn one_bounce_equals_attenuated_recursion() {
    // A single white diffuse sphere, one bounce of budget after the hit:
    // the result is the material colour times the colour of the scattered
    // ray, which itself is a background value.
    let scene = unit_sphere_scene(white_diffuse());
    let ray = Ray::new(Vec3::new(0, 0, 5 * S), Vec3::new(0, 0, -S));

    let mut rng_full = Rng::from_seed(9);
    let got = ray_color(&scene, &ray, 2, &mut rng_full);

    let mut rng_replay = Rng::from_seed(9);
    let hit = scene[0].intersect(&ray, 1, T_MAX).unwrap();
    assert_eq!(hit.t(), 4 * S);
    assert_eq!(hit.front(), true);
    let (scattered, att) = hit.scatter(&mut rng_replay);
    assert_eq!((att.x, att.y, att.z), (S, S, S));
    let rec = ray_color(&scene, &scattered, 1, &mut rng_replay);
    let expect = att.cmul(rec);
    assert_eq!((got.x, got.y, got.z), (expect.x, expect.y, expect.z));
    assert_eq!(rng_full.state, rng_replay.state);
}

#[test]
fn fixed_seed_renders_identically() {
    let cam = create_camera();
    let scene = unit_sphere_scene(white_diffuse());
    let seeds = vec![42u64, 7u64];
    let (w1, h1, b1) = render(&cam, &scene, 4, 3, 1, 3, &seeds);
    let (w2, h2, b2) = render(&cam, &scene, 4, 3, 1, 3, &seeds);
    assert_eq!((w1, h1), (4, 3));
    assert_eq!((w2, h2), (4, 3));
    assert_eq!(b1.len(), 12);
    for (p, q) in b1.iter().zip(b2.iter()) {
        assert_eq!((p.x, p.y, p.z), (q.x, q.y, q.z));
    }
    let t1 = quantize_buffer(&b1);
    let t2 = quantize_buffer(&b2);
    assert_eq!(t1, t2);
}

#[test]
fn single_worker_single_sample_is_deterministic() {
    let cam = create_camera();
    let scene = unit_sphere_scene(white_diffuse());
    let mut r1 = Rng::from_seed(1000);
    let mut r2 = Rng::from_seed(1000);
    let a = worker(&cam, &scene, 8, 8, 3, 4, 1, 5, &mut r1);
    let b = worker(&cam, &scene, 8, 8, 3, 4, 1, 5, &mut r2);
    assert_eq!((a.x, a.y, a.z), (b.x, b.y, b.z));
    assert_eq!(r1.state, r2.state);
}

#[test]
fn worker_buffer_has_column_major_size() {
    let cam = create_camera();
    let scene: Vec<Object> = Vec::new();
    let buf = worker_buffer(&cam, &scene, 3, 2, 1, 1, 5);
    assert_eq!(buf.len(), 6);
}

#[test]
fn quantize_round_trip_is_lossless_on_stored_values() {
    for k in 0u8..=255 {
        let x = unquantize(k);
        assert!(0 <= x && x <= S);
        assert_eq!(quantize(x), k);
    }
}

#[test]
fn quantize_round_trip_error_is_within_one_step() {
    for x in [0i64, 1, 17, 255, 256, 32768, 40000, 65535, 65536] {
        let back = unquantize(quantize(x));
        assert!((back - x).abs() <= 258, "x = {}, back = {}", x, back);
        assert!(0 <= back && back <= S);
    }
}

#[test]
fn quantize_saturates() {
    assert_eq!(quantize(-100), 0);
    assert_eq!(quantize(0), 0);
    assert_eq!(quantize(S), 255);
    assert_eq!(quantize(10 * S), 255);
    assert_eq!(unquantize(0), 0);
    assert_eq!(unquantize(255), S);
}

#[test]
fn buffer_round_trip() {
    let buf = vec![
        Vec3::new(0, 12345, S),
        Vec3::new(49152, 55705, 65536),
        Vec3::new(1, 2, 3),
    ];
    let stored = quantize_buffer(&buf);
    let back = unquantize_buffer(&stored);
    let stored_again = quantize_buffer(&back);
    assert_eq!(stored, stored_again);
}

#[test]
fn random_range_stays_in_range() {
    let mut rng = Rng::from_seed(2024);
    for _ in 0..200 {
        let r = random_range(&mut rng, -300, 700);
        assert!(-300 <= r && r < 700);
        let v = random_vector(&mut rng, 0, S);
        assert!(0 <= v.x && v.x < S);
        assert!(0 <= v.y && v.y < S);
        assert!(0 <= v.z && v.z < S);
    }
}

#[test]
fn created_scene_is_well_formed_and_rendered() {
    let mut rng = Rng::from_seed(31337);
    let scene = create_scene(&mut rng);
    assert!(scene.len() >= 4);
    let cam = create_camera();
    let seeds = vec![5u64];
    let (w, h, buf) = render(&cam, &scene, 4, 2, 1, 2, &seeds);
    assert_eq!((w, h), (4, 2));
    assert_eq!(buf.len(), 8);
}

#[test]
fn default_seeds_gives_requested_count() {
    let seeds = default_seeds(7);
    assert_eq!(seeds.len(), 7);
}
