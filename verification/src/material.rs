//! Material scattering models: diffuse, metallic and dielectric.  Each
//! maps an intersection (point, incoming direction, oriented normal,
//! front-face flag) and the task's random stream to a scattered ray and an
//! attenuation colour, exactly as the ghost mirror `scatter_s` states.

use vstd::prelude::*;
use crate::fixed::{SCALE, tdiv, clip, isq, div_fx, narrow, isqrt_u128, lemma_tdiv_bound, lemma_tdiv_shrinks, lemma_abs_mul_bound, lemma_square_nonneg, lemma_sqrt_dominates};
use vstd::arithmetic::div_mod::{lemma_div_multiples_vanish, lemma_div_non_zero};
use crate::vec3::{Vec3, V3, v3, okv, vadd, vsub, vscale, vdot};
use crate::ray::Ray;
use crate::rng::{Rng, step64, unit_from, sphere_sample_s, sample_unit_sphere};

verus! {

/// Retries granted to the rejection samplers.
pub const SAMPLE_FUEL: u32 = 16;

/// Bound on incoming ray-direction components accepted by scattering.
pub const MDB: i64 = 0x400000;

/// Bound on oriented-normal components accepted by scattering.
pub const MNB: i64 = 0x30000;

/// A colour has every channel in `[0, 1]`.
pub open spec fn color_ok(c: V3) -> bool {
    &&& 0 <= c.0 <= SCALE
    &&& 0 <= c.1 <= SCALE
    &&& 0 <= c.2 <= SCALE
}

#[derive(Clone, Copy, PartialEq, Eq, Structural, Debug)]
pub struct Lambertian {
    pub color: Vec3,
}

#[derive(Clone, Copy, PartialEq, Eq, Structural, Debug)]
pub struct Metal {
    pub color: Vec3,
    pub fuzz: i64,
}

#[derive(Clone, Copy, PartialEq, Eq, Structural, Debug)]
pub struct Dielectric {
    pub index_refraction: i64,
}

#[derive(Clone, Copy, PartialEq, Eq, Structural, Debug)]
pub enum Material {
    Lambertian(Lambertian),
    Metal(Metal),
    Dielectric(Dielectric),
}

/// Well-formed material parameters: colours in range, fuzz in `[0, 1)`,
/// refractive index in `[1, 16]`.
pub open spec fn material_ok(m: Material) -> bool {
    match m {
        Material::Lambertian(l) => color_ok(v3(l.color)),
        Material::Metal(mt) => color_ok(v3(mt.color)) && 0 <= mt.fuzz < SCALE,
        Material::Dielectric(d) => SCALE <= d.index_refraction <= 0x100000,
    }
}

/// Mirror reflection about the normal: `v - 2 (v . n) n`.
pub open spec fn reflect_s(v: V3, n: V3) -> V3 {
    vsub(v, vscale(n, 2 * vdot(v, n)))
}

/// The fifth power of a fixed-point value, rounded as computed.
pub open spec fn pow5_fx(p: int) -> int {
    let p2 = tdiv(p * p, SCALE as int);
    let p4 = tdiv(p2 * p2, SCALE as int);
    tdiv(p4 * p, SCALE as int)
}

/// Schlick's reflectance approximation,
/// `r0 + (1 - r0)(1 - cos)^5` with `r0 = ((1 - ratio)/(1 + ratio))^2`.
pub open spec fn reflectance_s(c: int, ratio: int) -> int {
    let r0 = tdiv((SCALE - ratio) * SCALE, SCALE + ratio);
    let r1 = tdiv(r0 * r0, SCALE as int);
    r1 + tdiv((SCALE - r1) * pow5_fx(SCALE - c), SCALE as int)
}

/// Refract-or-reflect: reflect on total internal reflection or on a
/// Schlick draw, else apply the vector refraction formula.  The random
/// draw happens only when the total-internal-reflection test fails, as
/// the short-circuit evaluation of the original formula dictates.
pub open spec fn refract_schlick_s(v: V3, n: V3, ratio: int, state: u64) -> (V3, u64) {
    let c = -clip(vdot(v, n), -(SCALE as int), SCALE as int);
    let cc = tdiv(c * c, SCALE as int);
    let s = isq((SCALE - cc) * SCALE);
    if tdiv(ratio * s, SCALE as int) > SCALE {
        (reflect_s(v, n), state)
    } else {
        let s1 = step64(state);
        let draw = unit_from(s1);
        if reflectance_s(c, ratio) > draw {
            (reflect_s(v, n), s1)
        } else {
            let orth = vscale(vadd(v, vscale(n, c)), ratio);
            let k = SCALE - vdot(orth, orth);
            let kk = if k >= 0 { k } else { -k };
            let par = vscale(n, -isq(kk * SCALE));
            (vadd(orth, par), s1)
        }
    }
}

/// One scattering event: the produced ray (origin, direction), the
/// attenuation colour, and the advanced random state.
pub open spec fn scatter_s(m: Material, point: V3, dir: V3, normal: V3, front: bool, state: u64) -> ((V3, V3), V3, u64) {
    match m {
        Material::Lambertian(l) => {
            let (s, st) = sphere_sample_s(state, SAMPLE_FUEL as nat);
            ((point, vadd(normal, s)), v3(l.color), st)
        },
        Material::Metal(mt) => {
            let (s, st) = sphere_sample_s(state, SAMPLE_FUEL as nat);
            ((point, vadd(reflect_s(dir, normal), vscale(s, mt.fuzz as int))), v3(mt.color), st)
        },
        Material::Dielectric(d) => {
            let ratio = if front {
                tdiv(SCALE * SCALE, d.index_refraction as int)
            } else {
                d.index_refraction as int
            };
            let (rd, st) = refract_schlick_s(dir, normal, ratio, state);
            ((point, rd), (SCALE as int, SCALE as int, SCALE as int), st)
        },
    }
}

impl Lambertian {
    pub fn new(color: Vec3) -> (r: Lambertian)
        ensures
            r.color == color,
    {
        Lambertian { color }
    }
}

impl Metal {
    pub fn new(color: Vec3, fuzz: i64) -> (r: Metal)
        ensures
            r.color == color,
            r.fuzz == fuzz,
    {
        Metal { color, fuzz }
    }
}

impl Dielectric {
    pub fn new(index_refraction: i64) -> (r: Dielectric)
        ensures
            r.index_refraction == index_refraction,
    {
        Dielectric { index_refraction }
    }
}

/// Mirror reflection of `v` about `n`.
pub fn reflect(v: Vec3, n: Vec3) -> (r: Vec3)
    requires
        okv(v3(v), 0x40000000),
        okv(v3(n), MNB as int),
    ensures
        v3(r) == reflect_s(v3(v), v3(n)),
        okv(v3(r), 0xe000000000),
{
    let d = v.dot(n);
    proof {
        lemma_abs_mul_bound(v.x as int, 0x40000000, n.x as int, MNB as int);
        lemma_abs_mul_bound(v.y as int, 0x40000000, n.y as int, MNB as int);
        lemma_abs_mul_bound(v.z as int, 0x40000000, n.z as int, MNB as int);
        lemma_tdiv_bound(
            v.x as int * n.x as int + v.y as int * n.y as int + v.z as int * n.z as int,
            SCALE as int,
            0x2400000000,
        );
        lemma_abs_mul_bound(n.x as int, MNB as int, 2 * d as int, 0x4800000000);
        lemma_abs_mul_bound(n.y as int, MNB as int, 2 * d as int, 0x4800000000);
        lemma_abs_mul_bound(n.z as int, MNB as int, 2 * d as int, 0x4800000000);
        lemma_tdiv_bound(n.x as int * (2 * d as int), SCALE as int, 0xd800000000);
        lemma_tdiv_bound(n.y as int * (2 * d as int), SCALE as int, 0xd800000000);
        lemma_tdiv_bound(n.z as int * (2 * d as int), SCALE as int, 0xd800000000);
    }
    v.sub(n.scale(2 * d))
}

/// Schlick's reflectance, computed exactly as specified.
pub fn reflectance(c: i64, ratio: i64) -> (r: i64)
    requires
        -SCALE <= c <= SCALE,
        1 <= ratio <= 0x100000,
    ensures
        r == reflectance_s(c as int, ratio as int),
{
    proof {
        lemma_abs_mul_bound(SCALE as int - ratio as int, 0x100000, SCALE as int, SCALE as int);
        lemma_tdiv_bound((SCALE - ratio as int) * SCALE, SCALE + ratio as int, 0x100000);
    }
    let r0 = narrow(div_fx(((SCALE - ratio) as i128) * (SCALE as i128), (SCALE + ratio) as i128));
    proof {
        lemma_abs_mul_bound(r0 as int, 0x100000, r0 as int, 0x100000);
        lemma_tdiv_bound(r0 as int * r0 as int, SCALE as int, 0x1000000);
    }
    let r1 = narrow(div_fx((r0 as i128) * (r0 as i128), SCALE as i128));
    let p = SCALE - c;
    proof {
        lemma_abs_mul_bound(p as int, 0x20000, p as int, 0x20000);
        lemma_tdiv_bound(p as int * p as int, SCALE as int, 0x40000);
    }
    let p2 = narrow(div_fx((p as i128) * (p as i128), SCALE as i128));
    proof {
        lemma_abs_mul_bound(p2 as int, 0x40000, p2 as int, 0x40000);
        lemma_tdiv_bound(p2 as int * p2 as int, SCALE as int, 0x100000);
    }
    let p4 = narrow(div_fx((p2 as i128) * (p2 as i128), SCALE as i128));
    proof {
        lemma_abs_mul_bound(p4 as int, 0x100000, p as int, 0x20000);
        lemma_tdiv_bound(p4 as int * p as int, SCALE as int, 0x200000);
    }
    let p5 = narrow(div_fx((p4 as i128) * (p as i128), SCALE as i128));
    proof {
        lemma_abs_mul_bound(SCALE as int - r1 as int, 0x2000000int, p5 as int, 0x200000);
        lemma_tdiv_bound((SCALE - r1 as int) * p5 as int, SCALE as int, 0x40000000000);
    }
    r1 + narrow(div_fx(((SCALE - r1) as i128) * (p5 as i128), SCALE as i128))
}

/// Refract or reflect the incoming direction `v` at a surface with
/// oriented normal `n` and refraction ratio `ratio`.
pub fn refract_schlick(v: Vec3, n: Vec3, ratio: i64, rng: &mut Rng) -> (r: Vec3)
    requires
        okv(v3(v), MDB as int),
        okv(v3(n), MNB as int),
        1 <= ratio <= 0x100000,
    ensures
        (v3(r), final(rng).state) == refract_schlick_s(v3(v), v3(n), ratio as int, old(rng).state),
        okv(v3(r), 0xe100000000),
{
    let dvn = v.dot(n);
    proof {
        lemma_abs_mul_bound(v.x as int, MDB as int, n.x as int, MNB as int);
        lemma_abs_mul_bound(v.y as int, MDB as int, n.y as int, MNB as int);
        lemma_abs_mul_bound(v.z as int, MDB as int, n.z as int, MNB as int);
        lemma_tdiv_bound(
            v.x as int * n.x as int + v.y as int * n.y as int + v.z as int * n.z as int,
            SCALE as int,
            0x2400000,
        );
    }
    let cl = if dvn < -SCALE {
        -SCALE
    } else if dvn > SCALE {
        SCALE
    } else {
        dvn
    };
    let c = -cl;
    proof {
        lemma_square_nonneg(c as int);
        lemma_abs_mul_bound(c as int, SCALE as int, c as int, SCALE as int);
        lemma_tdiv_bound(c as int * c as int, SCALE as int, SCALE as int);
        lemma_tdiv_shrinks(c as int * c as int, SCALE as int);
    }
    let cc = narrow(div_fx((c as i128) * (c as i128), SCALE as i128));
    let s_arg = SCALE - cc;
    let s_u = isqrt_u128((s_arg as u128) * (SCALE as u128));
    proof {
        lemma_sqrt_dominates(s_u as int, s_arg as int * SCALE, SCALE as int);
    }
    let s = s_u as i64;
    proof {
        lemma_abs_mul_bound(ratio as int, 0x100000, s as int, SCALE as int);
        lemma_tdiv_bound(ratio as int * s as int, SCALE as int, 0x100000000);
    }
    let rs = narrow(div_fx((ratio as i128) * (s as i128), SCALE as i128));
    if rs > SCALE {
        reflect(v, n)
    } else {
        let draw = rng.next_unit();
        let refl = reflectance(c, ratio);
        if refl > draw {
            reflect(v, n)
        } else {
            proof {
                lemma_abs_mul_bound(n.x as int, MNB as int, c as int, SCALE as int);
                lemma_abs_mul_bound(n.y as int, MNB as int, c as int, SCALE as int);
                lemma_abs_mul_bound(n.z as int, MNB as int, c as int, SCALE as int);
                lemma_tdiv_bound(n.x as int * c as int, SCALE as int, MNB as int);
                lemma_tdiv_bound(n.y as int * c as int, SCALE as int, MNB as int);
                lemma_tdiv_bound(n.z as int * c as int, SCALE as int, MNB as int);
            }
            let sum = v.add(n.scale(c));
            proof {
                lemma_abs_mul_bound(sum.x as int, 0x430000, ratio as int, 0x100000);
                lemma_abs_mul_bound(sum.y as int, 0x430000, ratio as int, 0x100000);
                lemma_abs_mul_bound(sum.z as int, 0x430000, ratio as int, 0x100000);
                lemma_tdiv_bound(sum.x as int * ratio as int, SCALE as int, 0x4300000);
                lemma_tdiv_bound(sum.y as int * ratio as int, SCALE as int, 0x4300000);
                lemma_tdiv_bound(sum.z as int * ratio as int, SCALE as int, 0x4300000);
            }
            let orth = sum.scale(ratio);
            let od = orth.dot(orth);
            proof {
                lemma_abs_mul_bound(orth.x as int, 0x4300000, orth.x as int, 0x4300000);
                lemma_abs_mul_bound(orth.y as int, 0x4300000, orth.y as int, 0x4300000);
                lemma_abs_mul_bound(orth.z as int, 0x4300000, orth.z as int, 0x4300000);
                lemma_tdiv_bound(
                    orth.x as int * orth.x as int + orth.y as int * orth.y as int + orth.z as int * orth.z as int,
                    SCALE as int,
                    0x40000000000,
                );
            }
            let k = SCALE - od;
            let kk = if k >= 0 { k } else { -k };
            let sq_u = isqrt_u128((kk as u128) * (SCALE as u128));
            proof {
                assert(sq_u as int * (sq_u as int) <= kk as int * SCALE);
                assert(sq_u < 0x30000000u128) by (nonlinear_arith)
                    requires
                        sq_u as int * (sq_u as int) <= kk as int * SCALE,
                        kk as int * SCALE < 0x30000000int * 0x30000000int,
                        kk <= 0x50000000000,
                ;
                lemma_abs_mul_bound(n.x as int, MNB as int, -(sq_u as int), 0x30000000);
                lemma_abs_mul_bound(n.y as int, MNB as int, -(sq_u as int), 0x30000000);
                lemma_abs_mul_bound(n.z as int, MNB as int, -(sq_u as int), 0x30000000);
                lemma_tdiv_bound(n.x as int * -(sq_u as int), SCALE as int, 0x90000000);
                lemma_tdiv_bound(n.y as int * -(sq_u as int), SCALE as int, 0x90000000);
                lemma_tdiv_bound(n.z as int * -(sq_u as int), SCALE as int, 0x90000000);
            }
            let par = n.scale(-(sq_u as i64));
            orth.add(par)
        }
    }
}

impl Material {
    /// Scatter at an intersection: produce the new ray and the attenuation.
    pub fn scatter(&self, point: Vec3, direction: Vec3, normal: Vec3, front: bool, rng: &mut Rng) -> (r: (Ray, Vec3))
        requires
            material_ok(*self),
            okv(v3(point), 0x200000000000),
            okv(v3(direction), MDB as int),
            okv(v3(normal), MNB as int),
        ensures
            ((v3(r.0.origin), v3(r.0.direction)), v3(r.1), final(rng).state)
                == scatter_s(*self, v3(point), v3(direction), v3(normal), front, old(rng).state),
            r.0.origin == point,
    {
        match self {
            Material::Lambertian(l) => {
                let s = sample_unit_sphere(rng, SAMPLE_FUEL);
                (Ray::new(point, normal.add(s)), l.color)
            },
            Material::Metal(mt) => {
                let s = sample_unit_sphere(rng, SAMPLE_FUEL);
                proof {
                    lemma_abs_mul_bound(s.x as int, SCALE as int, mt.fuzz as int, SCALE as int);
                    lemma_abs_mul_bound(s.y as int, SCALE as int, mt.fuzz as int, SCALE as int);
                    lemma_abs_mul_bound(s.z as int, SCALE as int, mt.fuzz as int, SCALE as int);
                    lemma_tdiv_bound(s.x as int * mt.fuzz as int, SCALE as int, SCALE as int);
                    lemma_tdiv_bound(s.y as int * mt.fuzz as int, SCALE as int, SCALE as int);
                    lemma_tdiv_bound(s.z as int * mt.fuzz as int, SCALE as int, SCALE as int);
                }
                let d = reflect(direction, normal).add(s.scale(mt.fuzz));
                (Ray::new(point, d), mt.color)
            },
            Material::Dielectric(die) => {
                let ratio = if front {
                    proof {
                        lemma_tdiv_shrinks(0x100000000, die.index_refraction as int);
                        lemma_div_non_zero(0x100000000, die.index_refraction as int);
                        lemma_tdiv_bound(0x100000000, die.index_refraction as int, 0x10000);
                    }
                    narrow(div_fx(0x100000000, die.index_refraction as i128))
                } else {
                    die.index_refraction
                };
                let d = refract_schlick(direction, normal, ratio, rng);
                (Ray::new(point, d), Vec3::new(SCALE, SCALE, SCALE))
            },
        }
    }
}

/// A dielectric with unit refractive index (`ratio = 1`) never totally
/// internally reflects, whatever the incidence: the sine computed inside
/// `refract_schlick_s` is at most one, so the test `ratio * sin > 1`
/// cannot fire.
pub proof fn lemma_unit_index_never_tir(v: V3, n: V3)
    ensures
        ({
            let c = -clip(vdot(v, n), -(SCALE as int), SCALE as int);
            let cc = tdiv(c * c, SCALE as int);
            let s = isq((SCALE - cc) * SCALE);
            tdiv(SCALE as int * s, SCALE as int) <= SCALE
        }),
{
    let c = -clip(vdot(v, n), -(SCALE as int), SCALE as int);
    assert(-SCALE <= c <= SCALE);
    lemma_abs_mul_bound(c, SCALE as int, c, SCALE as int);
    lemma_square_nonneg(c);
    lemma_tdiv_bound(c * c, SCALE as int, SCALE as int);
    lemma_tdiv_shrinks(c * c, SCALE as int);
    let cc = tdiv(c * c, SCALE as int);
    assert(0 <= cc <= SCALE);
    let arg = (SCALE - cc) * SCALE;
    assert(0 <= arg <= SCALE as int * SCALE) by (nonlinear_arith)
        requires 0 <= SCALE - cc <= SCALE, arg == (SCALE - cc) * SCALE;
    crate::fixed::lemma_isqrt_exists(arg);
    let s = isq(arg);
    lemma_sqrt_dominates(s, SCALE as int * SCALE, SCALE as int);
    assert(s * SCALE == SCALE as int * s) by (nonlinear_arith);
    lemma_div_multiples_vanish(s, SCALE as int);
    assert(tdiv(SCALE as int * s, SCALE as int) == s);
}

/// A dielectric with unit refractive index has zero base reflectance:
/// `r0 = ((1 - 1)/(1 + 1))^2 = 0`, so only the angular `(1 - cos)^5`
/// term of Schlick's approximation remains.
pub proof fn lemma_dielectric_unit_index(c: int)
    ensures
        tdiv((SCALE - SCALE as int) * SCALE, SCALE + SCALE as int) == 0,
        reflectance_s(c, SCALE as int) == pow5_fx(SCALE - c),
{
    assert((SCALE - SCALE as int) * SCALE == 0) by (nonlinear_arith);
    assert(tdiv(0, SCALE + SCALE as int) == 0) by {
        vstd::arithmetic::div_mod::lemma_div_of0(SCALE + SCALE as int);
    }
    assert(tdiv(0int * 0int, SCALE as int) == 0) by {
        vstd::arithmetic::div_mod::lemma_div_of0(SCALE as int);
    }
    let p5 = pow5_fx(SCALE - c);
    assert((SCALE - 0) * p5 == SCALE as int * p5);
    assert(SCALE as int * p5 == p5 * SCALE) by (nonlinear_arith);
    if p5 >= 0 {
        lemma_div_multiples_vanish(p5, SCALE as int);
    } else {
        lemma_div_multiples_vanish(-p5, SCALE as int);
        assert((-p5) * SCALE == -(p5 * SCALE)) by (nonlinear_arith);
    }
}

} // verus!
