//! Scene construction: the randomized sphere field and the default
//! camera.  The scene builder is a collaborator of the renderer; its
//! contract is that every object it hands over is well formed.

use vstd::prelude::*;
use vstd::arithmetic::div_mod::{lemma_div_pos_is_pos, lemma_multiply_divide_lt};
use crate::fixed::{SCALE, tdiv, div_fx, narrow, lemma_abs_mul_bound};
use crate::vec3::{Vec3, V3, v3, okv, vcmul};
use crate::rng::{Rng, step64, unit_from};
use crate::geometry::Sphere;
use crate::material::{Material, Lambertian, Metal, Dielectric};
use crate::object::{Object, object_ok};
use crate::integrator::scene_ok;
use crate::camera::{Camera, camera_ok};

verus! {

/// A uniform draw in `[lo, hi)` derived from one generator step.
pub open spec fn range_from(x: u64, lo: int, hi: int) -> int {
    lo + tdiv((hi - lo) * unit_from(x), SCALE as int)
}

/// Draw a fixed-point value uniformly (up to the grid) in `[lo, hi)`.
pub fn random_range(rng: &mut Rng, lo: i64, hi: i64) -> (r: i64)
    requires
        -0x100000000 <= lo < hi <= 0x100000000,
    ensures
        final(rng).state == step64(old(rng).state),
        r == range_from(step64(old(rng).state), lo as int, hi as int),
        lo <= r < hi,
{
    let u = rng.next_unit();
    proof {
        lemma_abs_mul_bound(hi as int - lo as int, 0x200000000, u as int, SCALE as int);
        lemma_div_pos_is_pos((hi as int - lo as int) * u, SCALE as int);
        assert((hi as int - lo as int) * u < SCALE as int * (hi as int - lo as int)) by (nonlinear_arith)
            requires 0 <= u < SCALE, 0 < hi as int - lo as int;
        lemma_multiply_divide_lt((hi as int - lo as int) * u, SCALE as int, hi as int - lo as int);
    }
    lo + narrow(div_fx(((hi - lo) as i128) * (u as i128), SCALE as i128))
}

/// Three independent draws in `[lo, hi)`, one per component.
pub open spec fn vector_range_s(state: u64, lo: int, hi: int) -> (V3, u64) {
    let s1 = step64(state);
    let s2 = step64(s1);
    let s3 = step64(s2);
    ((range_from(s1, lo, hi), range_from(s2, lo, hi), range_from(s3, lo, hi)), s3)
}

/// Draw a vector with components uniform in `[lo, hi)`.
pub fn random_vector(rng: &mut Rng, lo: i64, hi: i64) -> (r: Vec3)
    requires
        -0x100000000 <= lo < hi <= 0x100000000,
    ensures
        (v3(r), final(rng).state) == vector_range_s(old(rng).state, lo as int, hi as int),
        okv(v3(r), 0x100000000),
        lo <= r.x < hi && lo <= r.y < hi && lo <= r.z < hi,
{
    let x = random_range(rng, lo, hi);
    let y = random_range(rng, lo, hi);
    let z = random_range(rng, lo, hi);
    Vec3 { x, y, z }
}

/// The default camera: at `(13, 2, 3)` looking at the origin, a 20-degree
/// vertical field of view (tangent of the half angle in fixed point),
/// 3:2 aspect, aperture `0.1`, focus distance `10`.
pub fn create_camera() -> (r: Camera)
    ensures
        camera_ok(r),
        v3(r.origin) == (851968int, 131072int, 196608int),
        r.lens_radius == tdiv(6554, 2),
{
    Camera::look_at(
        Vec3::new(851968, 131072, 196608),
        &Vec3::new(0, 0, 0),
        &Vec3::new(0, 65536, 0),
        11557,
        98304,
        6554,
        655360,
    )
}

/// The squared distance, in scaled-squared units, that small spheres must
/// keep from the large metal sphere's site (the fixed-point `0.81`).
pub const CLEARANCE_Q: i64 = 0x1000000000;

/// Build the randomized sphere field: a grid of small spheres with random
/// centres and materials, a large diffuse ground sphere, and three large
/// feature spheres.  Every object handed over is well formed.
pub fn create_scene(rng: &mut Rng) -> (r: Vec<Object>)
    ensures
        scene_ok(r@),
        r@.len() >= 4,
{
    let mut scene: Vec<Object> = Vec::new();
    let mut a: i64 = -11;
    while a < 11
        invariant
            -11 <= a <= 11,
            scene_ok(scene@),
        decreases 11 - a,
    {
        let mut b: i64 = -11;
        while b < 11
            invariant
                -11 <= a < 11,
                -11 <= b <= 11,
                scene_ok(scene@),
            decreases 11 - b,
        {
            let x = a * 65536 + random_range(rng, 0, 58982);
            let y: i64 = 13107;
            let z = b * 65536 + random_range(rng, 0, 58982);
            let dx: i128 = (x as i128) - 262144;
            let dy: i128 = (y as i128) - 13107;
            let dz: i128 = z as i128;
            proof {
                lemma_abs_mul_bound(dx as int, 0x200000, dx as int, 0x200000);
                lemma_abs_mul_bound(dy as int, 0x200000, dy as int, 0x200000);
                lemma_abs_mul_bound(dz as int, 0x200000, dz as int, 0x200000);
            }
            let dist_q: i128 = dx * dx + dy * dy + dz * dz;
            if dist_q > CLEARANCE_Q as i128 {
                let sphere = Sphere::new(Vec3::new(x, y, z), 13107);
                let choose_material = rng.next_unit();
                let material = if choose_material < 52429 {
                    let c1 = random_vector(rng, 0, 65536);
                    let c2 = random_vector(rng, 0, 65536);
                    proof {
                        lemma_abs_mul_bound(c1.x as int, SCALE as int, c2.x as int, SCALE as int);
                        lemma_abs_mul_bound(c1.y as int, SCALE as int, c2.y as int, SCALE as int);
                        lemma_abs_mul_bound(c1.z as int, SCALE as int, c2.z as int, SCALE as int);
                        crate::fixed::lemma_tdiv_bound(c1.x as int * c2.x as int, SCALE as int, SCALE as int);
                        crate::fixed::lemma_tdiv_bound(c1.y as int * c2.y as int, SCALE as int, SCALE as int);
                        crate::fixed::lemma_tdiv_bound(c1.z as int * c2.z as int, SCALE as int, SCALE as int);
                        crate::fixed::lemma_square_nonneg(c1.x as int);
                        lemma_div_pos_is_pos(c1.x as int * c2.x as int, SCALE as int);
                        lemma_div_pos_is_pos(c1.y as int * c2.y as int, SCALE as int);
                        lemma_div_pos_is_pos(c1.z as int * c2.z as int, SCALE as int);
                    }
                    let color = c1.cmul(c2);
                    Material::Lambertian(Lambertian::new(color))
                } else if choose_material < 62259 {
                    let color = random_vector(rng, 32768, 65536);
                    let fuzz = random_range(rng, 0, 32768);
                    Material::Metal(Metal::new(color, fuzz))
                } else {
                    Material::Dielectric(Dielectric::new(98304))
                };
                scene.push(Object::new(sphere, material));
            }
            b += 1;
        }
        a += 1;
    }
    scene.push(Object::new(
        Sphere::new(Vec3::new(0, -65536000, 0), 65536000),
        Material::Lambertian(Lambertian::new(Vec3::new(32768, 32768, 32768))),
    ));
    scene.push(Object::new(
        Sphere::new(Vec3::new(0, 65536, 0), 65536),
        Material::Dielectric(Dielectric::new(98304)),
    ));
    scene.push(Object::new(
        Sphere::new(Vec3::new(-262144, 65536, 0), 65536),
        Material::Lambertian(Lambertian::new(Vec3::new(26214, 13107, 6554))),
    ));
    scene.push(Object::new(
        Sphere::new(Vec3::new(262144, 65536, 0), 65536),
        Material::Metal(Metal::new(Vec3::new(45875, 39322, 32768), 0)),
    ));
    scene
}

} // verus!
