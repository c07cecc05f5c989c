//! A scene object pairs a sphere with a material.  Its intersection test
//! wraps the geometric hit in an `Intersection` record whose derived
//! quantities — hit point, oriented normal, front-face flag — are computed
//! once, eagerly, so every later reader observes one consistent pair.

use vstd::prelude::*;
use crate::fixed::{SCALE, tdiv, lemma_tdiv_bound, lemma_abs_mul_bound};
use crate::vec3::{Vec3, V3, v3, okv, vneg, vdot};
use crate::ray::{Ray, ray_at_s};
use crate::rng::Rng;
use crate::geometry::{Sphere, sphere_hit_s, sphere_normal_s, opt_int, CB};
use crate::material::{Material, material_ok, scatter_s, MDB, MNB};

verus! {

/// Bound on ray-origin components accepted by object intersection.
pub const OB: i64 = 0x100000000000;

/// Bound on hit-point components produced by object intersection.
pub const HPB: i64 = 0x200000000000;

#[derive(Clone, Copy, PartialEq, Eq, Structural, Debug)]
pub struct Object {
    pub geometry: Sphere,
    pub material: Material,
}

/// A well-formed scene object: bounded centre, positive bounded radius,
/// well-formed material parameters.
pub open spec fn object_ok(o: Object) -> bool {
    &&& okv(v3(o.geometry.center), CB as int)
    &&& 1 <= o.geometry.radius <= CB
    &&& material_ok(o.material)
}

/// The oriented normal at hit parameter `t` and the front-face flag:
/// the outward normal, flipped when the ray strikes from inside.
pub open spec fn oriented_normal_s(center: V3, radius: int, ro: V3, rd: V3, t: int) -> (V3, bool) {
    let p = ray_at_s(ro, rd, t);
    let n = sphere_normal_s(center, radius, p);
    let front = vdot(rd, n) < 0;
    (if front { n } else { vneg(n) }, front)
}

/// The full object-level hit: the geometric hit parameter together with
/// the eagerly derived point, oriented normal and front flag.  A hit whose
/// normal is out of bounds (possible only for degenerate geometry) is
/// reported as a miss.
pub open spec fn obj_hit_s(o: Object, ro: V3, rd: V3, tmin: int, tmax: int) -> Option<(int, V3, V3, bool)> {
    match sphere_hit_s(v3(o.geometry.center), o.geometry.radius as int, ro, rd, tmin, tmax) {
        Some(t) => {
            let p = ray_at_s(ro, rd, t);
            let (n, front) = oriented_normal_s(v3(o.geometry.center), o.geometry.radius as int, ro, rd, t);
            if okv(n, MNB as int) {
                Some((t, p, n, front))
            } else {
                None
            }
        },
        None => None,
    }
}

pub struct Intersection {
    pub t: i64,
    pub ray: Ray,
    pub point: Vec3,
    pub normal: Vec3,
    pub front: bool,
    pub material: Material,
}

/// Internal consistency of an intersection record.
pub open spec fn inter_ok(i: Intersection) -> bool {
    &&& okv(v3(i.point), HPB as int)
    &&& okv(v3(i.normal), MNB as int)
    &&& okv(v3(i.ray.origin), OB as int)
    &&& okv(v3(i.ray.direction), MDB as int)
    &&& material_ok(i.material)
}

impl Intersection {
    pub fn t(&self) -> (r: i64)
        ensures
            r == self.t,
    {
        self.t
    }

    pub fn ray(&self) -> (r: Ray)
        ensures
            r == self.ray,
    {
        self.ray
    }

    pub fn point(&self) -> (r: Vec3)
        ensures
            r == self.point,
    {
        self.point
    }

    pub fn normal(&self) -> (r: Vec3)
        ensures
            r == self.normal,
    {
        self.normal
    }

    pub fn front(&self) -> (r: bool)
        ensures
            r == self.front,
    {
        self.front
    }

    /// Scatter off this intersection's material.
    pub fn scatter(&self, rng: &mut Rng) -> (r: (Ray, Vec3))
        requires
            inter_ok(*self),
        ensures
            ((v3(r.0.origin), v3(r.0.direction)), v3(r.1), final(rng).state)
                == scatter_s(self.material, v3(self.point), v3(self.ray.direction), v3(self.normal), self.front, old(rng).state),
            r.0.origin == self.point,
    {
        self.material.scatter(self.point, self.ray.direction(), self.normal, self.front, rng)
    }
}

impl Object {
    pub fn new(geometry: Sphere, material: Material) -> (r: Object)
        ensures
            r.geometry == geometry,
            r.material == material,
    {
        Object { geometry, material }
    }

    /// Intersect a ray with this object, deriving the cached record.
    pub fn intersect(&self, ray: &Ray, tmin: i64, tmax: i64) -> (r: Option<Intersection>)
        requires
            object_ok(*self),
            okv(v3(ray.origin), OB as int),
            okv(v3(ray.direction), MDB as int),
            0 <= tmin,
            tmax <= 0x4000000000,
        ensures
            match r {
                Some(i) => {
                    &&& obj_hit_s(*self, v3(ray.origin), v3(ray.direction), tmin as int, tmax as int)
                        == Some((i.t as int, v3(i.point), v3(i.normal), i.front))
                    &&& i.ray == *ray
                    &&& i.material == self.material
                    &&& inter_ok(i)
                },
                None => obj_hit_s(*self, v3(ray.origin), v3(ray.direction), tmin as int, tmax as int) is None,
            },
    {
        match self.geometry.intersect(ray.origin, ray.direction, tmin, tmax) {
            None => None,
            Some(t) => {
                proof {
                    lemma_abs_mul_bound(ray.direction.x as int, MDB as int, t as int, 0x4000000000);
                    lemma_abs_mul_bound(ray.direction.y as int, MDB as int, t as int, 0x4000000000);
                    lemma_abs_mul_bound(ray.direction.z as int, MDB as int, t as int, 0x4000000000);
                    lemma_tdiv_bound(ray.direction.x as int * t as int, SCALE as int, 0x100000000000);
                    lemma_tdiv_bound(ray.direction.y as int * t as int, SCALE as int, 0x100000000000);
                    lemma_tdiv_bound(ray.direction.z as int * t as int, SCALE as int, 0x100000000000);
                }
                let point = ray.at(t);
                let n = self.geometry.normal(point);
                if -MNB <= n.x && n.x <= MNB && -MNB <= n.y && n.y <= MNB && -MNB <= n.z && n.z <= MNB {
                    let d = ray.direction().dot(n);
                    let front = d < 0;
                    let normal = if front { n } else { n.neg() };
                    Some(Intersection { t, ray: *ray, point, normal, front, material: self.material })
                } else {
                    None
                }
            },
        }
    }
}

} // verus!
