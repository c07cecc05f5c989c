//! Sphere geometry: the ray/sphere intersection test and the surface
//! normal.  The intersection solves the quadratic `a t^2 + 2 b t + c = 0`
//! in fixed point; a nonpositive discriminant (tangent rays included) is a
//! miss, and the smaller root wins when both lie in the queried range.

use vstd::prelude::*;
use crate::fixed::{SCALE, tdiv, isq, div_fx, narrow, isqrt_u128, lemma_tdiv_bound, lemma_tdiv_shrinks, lemma_abs_mul_bound, lemma_square_nonneg};
use crate::vec3::{Vec3, V3, v3, okv, vsub, vdot};
use vstd::arithmetic::div_mod::{lemma_fundamental_div_mod, lemma_mod_bound};

verus! {

/// Bound on scene coordinates (centres and radii).
pub const CB: i64 = 0x10000000000;

/// Bound on ray-origin components accepted by the intersection test.
pub const PB: i64 = 0x200000000000;

/// Bound on ray-direction components accepted by the intersection test.
pub const DB: i64 = 0x400000;

#[derive(Clone, Copy, PartialEq, Eq, Structural, Debug)]
pub struct Sphere {
    pub center: Vec3,
    pub radius: i64,
}

/// An executable optional parameter, seen as a ghost optional integer.
pub open spec fn opt_int(r: Option<i64>) -> Option<int> {
    match r {
        Some(t) => Some(t as int),
        None => None,
    }
}

/// The ray/sphere hit parameter: the first root of the quadratic that
/// falls in `[tmin, tmax)`, if the discriminant is strictly positive.
pub open spec fn sphere_hit_s(center: V3, radius: int, o: V3, d: V3, tmin: int, tmax: int) -> Option<int> {
    let oc = vsub(o, center);
    let a = vdot(d, d);
    let b = vdot(d, oc);
    let c = vdot(oc, oc) - tdiv(radius * radius, SCALE as int);
    let num = b * b - a * c;
    if a > 0 && num > 0 {
        let sq = isq(num);
        let t0 = tdiv((-b - sq) * SCALE, a);
        let t1 = tdiv((-b + sq) * SCALE, a);
        if tmin <= t0 < tmax {
            Some(t0)
        } else if tmin <= t1 < tmax {
            Some(t1)
        } else {
            None
        }
    } else {
        None
    }
}

/// The outward surface normal at `p`: `(p - center) / radius`.
pub open spec fn sphere_normal_s(center: V3, radius: int, p: V3) -> V3 {
    let d = vsub(p, center);
    (tdiv(d.0 * SCALE, radius), tdiv(d.1 * SCALE, radius), tdiv(d.2 * SCALE, radius))
}

impl Sphere {
    pub fn new(center: Vec3, radius: i64) -> (r: Sphere)
        ensures
            r.center == center,
            r.radius == radius,
    {
        Sphere { center, radius }
    }

    /// Solve the ray/sphere quadratic and return the first root in range.
    pub fn intersect(&self, ray_origin: Vec3, ray_direction: Vec3, tmin: i64, tmax: i64) -> (r: Option<i64>)
        requires
            okv(v3(self.center), CB as int),
            0 <= self.radius <= CB,
            okv(v3(ray_origin), PB as int),
            okv(v3(ray_direction), DB as int),
        ensures
            opt_int(r) == sphere_hit_s(
                v3(self.center), self.radius as int,
                v3(ray_origin), v3(ray_direction),
                tmin as int, tmax as int,
            ),
    {
        let ocx: i128 = (ray_origin.x as i128) - (self.center.x as i128);
        let ocy: i128 = (ray_origin.y as i128) - (self.center.y as i128);
        let ocz: i128 = (ray_origin.z as i128) - (self.center.z as i128);
        let dx: i128 = ray_direction.x as i128;
        let dy: i128 = ray_direction.y as i128;
        let dz: i128 = ray_direction.z as i128;
        proof {
            lemma_square_nonneg(dx as int);
            lemma_square_nonneg(dy as int);
            lemma_square_nonneg(dz as int);
            lemma_abs_mul_bound(dx as int, DB as int, dx as int, DB as int);
            lemma_abs_mul_bound(dy as int, DB as int, dy as int, DB as int);
            lemma_abs_mul_bound(dz as int, DB as int, dz as int, DB as int);
            lemma_abs_mul_bound(dx as int, DB as int, ocx as int, 0x400000000000, );
            lemma_abs_mul_bound(dy as int, DB as int, ocy as int, 0x400000000000, );
            lemma_abs_mul_bound(dz as int, DB as int, ocz as int, 0x400000000000, );
            lemma_abs_mul_bound(ocx as int, 0x400000000000, ocx as int, 0x400000000000);
            lemma_abs_mul_bound(ocy as int, 0x400000000000, ocy as int, 0x400000000000);
            lemma_abs_mul_bound(ocz as int, 0x400000000000, ocz as int, 0x400000000000);
            lemma_abs_mul_bound(self.radius as int, CB as int, self.radius as int, CB as int);
        }
        let s_a: i128 = dx * dx + dy * dy + dz * dz;
        let s_b: i128 = dx * ocx + dy * ocy + dz * ocz;
        let s_c: i128 = ocx * ocx + ocy * ocy + ocz * ocz;
        let s_r: i128 = (self.radius as i128) * (self.radius as i128);
        proof {
            lemma_tdiv_shrinks(s_a as int, SCALE as int);
            lemma_tdiv_bound(s_b as int, SCALE as int, 0x40000000000000);
            lemma_tdiv_bound(s_c as int, SCALE as int, 0x40000000000000000000);
            lemma_tdiv_bound(s_r as int, SCALE as int, 0x10000000000000000);
        }
        let a: i128 = div_fx(s_a, SCALE as i128);
        let b: i128 = div_fx(s_b, SCALE as i128);
        let c: i128 = div_fx(s_c, SCALE as i128) - div_fx(s_r, SCALE as i128);
        proof {
            lemma_abs_mul_bound(b as int, 0x40000000000000, b as int, 0x40000000000000);
            lemma_abs_mul_bound(a as int, 0x400000000000, c as int, 0x80000000000000000000);
        }
        let num: i128 = b * b - a * c;
        if a > 0 && num > 0 {
            let sq_u: u128 = isqrt_u128(num as u128);
            proof {
                assert(sq_u as int * (sq_u as int) <= num as int);
                assert(sq_u < 0x8000000000000000u128) by (nonlinear_arith)
                    requires
                        sq_u as int * (sq_u as int) <= num as int,
                        num < 0x8000000000000000int * 0x8000000000000000int,
                ;
            }
            let sq: i128 = sq_u as i128;
            proof {
                lemma_abs_mul_bound(-(b as int) - sq as int, 0x10000000000000000, SCALE as int, SCALE as int);
                lemma_abs_mul_bound(-(b as int) + sq as int, 0x10000000000000000, SCALE as int, SCALE as int);
                lemma_tdiv_shrinks((-(b as int) - sq as int) * SCALE, a as int);
                lemma_tdiv_shrinks((-(b as int) + sq as int) * SCALE, a as int);
            }
            let t0: i128 = div_fx((-b - sq) * (SCALE as i128), a);
            if (tmin as i128) <= t0 && t0 < (tmax as i128) {
                return Some(narrow(t0));
            }
            let t1: i128 = div_fx((-b + sq) * (SCALE as i128), a);
            if (tmin as i128) <= t1 && t1 < (tmax as i128) {
                return Some(narrow(t1));
            }
            None
        } else {
            None
        }
    }

    /// The outward normal at a surface point.
    pub fn normal(&self, point: Vec3) -> (r: Vec3)
        requires
            okv(v3(self.center), CB as int),
            1 <= self.radius <= CB,
            okv(v3(point), PB as int),
        ensures
            v3(r) == sphere_normal_s(v3(self.center), self.radius as int, v3(point)),
    {
        let dx: i128 = (point.x as i128) - (self.center.x as i128);
        let dy: i128 = (point.y as i128) - (self.center.y as i128);
        let dz: i128 = (point.z as i128) - (self.center.z as i128);
        proof {
            lemma_abs_mul_bound(dx as int, 0x400000000000, SCALE as int, SCALE as int);
            lemma_abs_mul_bound(dy as int, 0x400000000000, SCALE as int, SCALE as int);
            lemma_abs_mul_bound(dz as int, 0x400000000000, SCALE as int, SCALE as int);
            lemma_tdiv_shrinks(dx as int * SCALE, self.radius as int);
            lemma_tdiv_shrinks(dy as int * SCALE, self.radius as int);
            lemma_tdiv_shrinks(dz as int * SCALE, self.radius as int);
        }
        let x = narrow(div_fx(dx * (SCALE as i128), self.radius as i128));
        let y = narrow(div_fx(dy * (SCALE as i128), self.radius as i128));
        let z = narrow(div_fx(dz * (SCALE as i128), self.radius as i128));
        Vec3 { x, y, z }
    }
}

/// A returned hit parameter always lies in the queried range.
pub proof fn lemma_hit_in_range(center: V3, radius: int, o: V3, d: V3, tmin: int, tmax: int, t: int)
    requires
        sphere_hit_s(center, radius, o, d, tmin, tmax) == Some(t),
    ensures
        tmin <= t < tmax,
{
}

/// A returned hit parameter solves the hit quadratic up to rounding:
/// with the rounded coefficients `a`, `b`, `c` of the test and
/// `sq = isqrt(b^2 - a c)`, the residual `a t^2 + 2 b t + c` (here kept
/// in exact integers, so scaled by `SCALE^2` and multiplied by `a`) is
/// bounded by the slack the square root and the division introduce.
/// Since that residual is `a^2` times the squared distance of the hit
/// point from the surface, this is the exactness half of the
/// hit-on-surface property, stated in fixed point.
pub proof fn lemma_hit_solves_quadratic(center: V3, radius: int, o: V3, d: V3, tmin: int, tmax: int, t: int)
    requires
        sphere_hit_s(center, radius, o, d, tmin, tmax) == Some(t),
    ensures
        ({
            let oc = vsub(o, center);
            let a = vdot(d, d);
            let b = vdot(d, oc);
            let c = vdot(oc, oc) - tdiv(radius * radius, SCALE as int);
            let sq = isq(b * b - a * c);
            let resid = a * (a * t * t + 2 * SCALE * b * t + 0x100000000 * c);
            -(2 * sq * 0x100000000 + 2 * SCALE * (a * sq) + a * a) <= resid
                <= 2 * sq * 0x100000000 + 2 * SCALE * (a * sq) + a * a
        }),
{
    let oc = vsub(o, center);
    let a = vdot(d, d);
    let b = vdot(d, oc);
    let c = vdot(oc, oc) - tdiv(radius * radius, SCALE as int);
    let num = b * b - a * c;
    let sq = isq(num);
    assert(a > 0 && num > 0);
    crate::fixed::lemma_isqrt_exists(num);
    assert(sq * sq <= num < (sq + 1) * (sq + 1));
    assert(0 <= num - sq * sq <= 2 * sq) by (nonlinear_arith)
        requires sq * sq <= num, num < (sq + 1) * (sq + 1);
    // The returned root is one of the two candidates; name its signed
    // square-root term `e`.
    let t0 = tdiv((-b - sq) * SCALE, a);
    let t1 = tdiv((-b + sq) * SCALE, a);
    let e: int = if t == t0 { -sq } else { sq };
    let nb = -b + e;
    assert(t == tdiv(nb * SCALE, a));
    assert(e * e == sq * sq) by (nonlinear_arith)
        requires e == sq || e == -sq;
    // Truncated division leaves a remainder smaller than `a`.
    let p = nb * SCALE;
    let rt = p - a * t;
    if p >= 0 {
        lemma_fundamental_div_mod(p, a);
        lemma_mod_bound(p, a);
    } else {
        lemma_fundamental_div_mod(-p, a);
        lemma_mod_bound(-p, a);
        assert(a * ((-p) / a) == -(a * t)) by (nonlinear_arith)
            requires t == -((-p) / a);
    }
    assert(-a < rt < a);
    // Expand the residual around the exact relation `a t = nb S - rt`.
    assert(a * (a * t * t + 2 * SCALE * b * t + 0x100000000 * c)
        == (a * t) * (a * t) + 2 * SCALE * b * (a * t) + a * c * 0x100000000) by (nonlinear_arith);
    assert((a * t) * (a * t) == (nb * SCALE) * (nb * SCALE) - 2 * (nb * SCALE) * rt + rt * rt) by (nonlinear_arith)
        requires a * t == nb * SCALE - rt;
    assert(2 * SCALE * b * (a * t) == 2 * 0x100000000 * (b * nb) - 2 * SCALE * (b * rt)) by (nonlinear_arith)
        requires a * t == nb * SCALE - rt;
    assert((nb * SCALE) * (nb * SCALE) == 0x100000000 * (nb * nb)) by (nonlinear_arith);
    assert(nb * nb + 2 * (b * nb) == sq * sq - b * b) by (nonlinear_arith)
        requires nb == -b + e, e * e == sq * sq;
    assert(0x100000000 * (nb * nb) + 2 * 0x100000000 * (b * nb) == 0x100000000 * (sq * sq - b * b)) by (nonlinear_arith)
        requires nb * nb + 2 * (b * nb) == sq * sq - b * b;
    assert(0x100000000 * (sq * sq - b * b) + a * c * 0x100000000 == 0x100000000 * (sq * sq - num)) by (nonlinear_arith)
        requires num == b * b - a * c;
    assert(2 * (nb * SCALE) * rt + 2 * SCALE * (b * rt) == 2 * SCALE * (rt * e)) by (nonlinear_arith)
        requires nb == -b + e;
    let resid = a * (a * t * t + 2 * SCALE * b * t + 0x100000000 * c);
    assert(resid == 0x100000000 * (sq * sq - num) - 2 * SCALE * (rt * e) + rt * rt);
    // Bound each rounding term.
    assert(-(2 * sq) * 0x100000000 <= 0x100000000 * (sq * sq - num) <= 0) by (nonlinear_arith)
        requires 0 <= num - sq * sq <= 2 * sq;
    assert(-(a * sq) <= rt * e <= a * sq) by (nonlinear_arith)
        requires -a < rt < a, -sq <= e <= sq, 0 <= sq, 0 < a;
    assert(0 <= rt * rt <= a * a) by (nonlinear_arith)
        requires -a < rt < a;
}

} // verus!
