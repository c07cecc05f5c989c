//! The recursive Monte Carlo colour estimator.  A ray is tested against
//! every scene object in order; the closest hit (first object wins exact
//! ties) scatters and the estimator recurses with one less bounce; a miss
//! returns the background gradient; an exhausted depth budget returns
//! black.

use vstd::prelude::*;
use crate::fixed::{SCALE, tdiv, div_fx, narrow, lemma_tdiv_bound, lemma_tdiv_shrinks, lemma_abs_mul_bound};
use crate::vec3::{Vec3, V3, v3, okv, vcmul};
use crate::ray::Ray;
use crate::rng::Rng;
use crate::material::{Material, material_ok, color_ok, scatter_s, MDB};
use crate::object::{Object, object_ok, obj_hit_s, inter_ok, Intersection, OB};

verus! {

/// The far end of the queried hit range: the representable horizon that
/// stands for an unbounded ray.
pub const T_MAX: i64 = 0x4000000000;

/// Bound on the components of any colour the integrator returns.
pub const CMAX: i64 = 0x800000;

/// Every object of the scene is well formed.
pub open spec fn scene_ok(objs: Seq<Object>) -> bool {
    forall|i: int| 0 <= i < objs.len() ==> object_ok(objs[i])
}

/// A ray the integrator accepts: bounded origin, bounded direction.
pub open spec fn ray_ok(o: V3, d: V3) -> bool {
    okv(o, OB as int) && okv(d, MDB as int)
}

/// The background gradient: a linear blend from white to sky blue driven
/// by the direction's vertical component, `t = (y + 1) / 2`.
pub open spec fn background_s(d: V3) -> V3 {
    let t = tdiv(d.1 + SCALE, 2);
    (
        SCALE - t + tdiv(t * 32768, SCALE as int),
        SCALE - t + tdiv(t * 45875, SCALE as int),
        SCALE - t + tdiv(t * SCALE, SCALE as int),
    )
}

/// The closest hit over the first `n` objects; on an exact tie the
/// earlier object wins.
pub open spec fn first_hit_s(objs: Seq<Object>, ro: V3, rd: V3, n: nat) -> Option<(int, (int, V3, V3, bool))>
    decreases n,
{
    if n == 0 {
        None
    } else {
        let prev = first_hit_s(objs, ro, rd, (n - 1) as nat);
        let cur = obj_hit_s(objs[n - 1], ro, rd, 1, T_MAX as int);
        match prev {
            None => match cur {
                None => None,
                Some(h) => Some((n - 1, h)),
            },
            Some(p) => match cur {
                None => Some(p),
                Some(h) => if p.1.0 <= h.0 {
                    Some(p)
                } else {
                    Some((n - 1, h))
                },
            },
        }
    }
}

/// The integrator's ghost mirror: black at depth zero; otherwise the
/// attenuated recursive colour at the closest hit, or the background on a
/// miss.  A scattered ray outside the representable bounds (degenerate
/// geometry only) is treated as absorbed.
pub open spec fn ray_color_s(objs: Seq<Object>, ro: V3, rd: V3, depth: nat, state: u64) -> (V3, u64)
    decreases depth,
{
    if depth == 0 {
        ((0int, 0int, 0int), state)
    } else {
        match first_hit_s(objs, ro, rd, objs.len()) {
            None => (background_s(rd), state),
            Some((i, h)) => {
                let (sray, att, st1) = scatter_s(objs[i].material, h.1, rd, h.2, h.3, state);
                if ray_ok(sray.0, sray.1) {
                    let (rec, st2) = ray_color_s(objs, sray.0, sray.1, (depth - 1) as nat, st1);
                    (vcmul(att, rec), st2)
                } else {
                    ((0int, 0int, 0int), st1)
                }
            },
        }
    }
}

/// The attenuation a scatter returns is a colour in range.
proof fn lemma_scatter_att_ok(m: Material, p: V3, d: V3, n: V3, f: bool, state: u64)
    requires
        material_ok(m),
    ensures
        color_ok(scatter_s(m, p, d, n, f, state).1),
{
    match m {
        Material::Lambertian(_) => {},
        Material::Metal(_) => {},
        Material::Dielectric(_) => {},
    }
}

/// Estimate the colour carried along `ray` with `depth` bounces left.
pub fn ray_color(objects: &Vec<Object>, ray: &Ray, depth: u32, rng: &mut Rng) -> (r: Vec3)
    requires
        scene_ok(objects@),
        ray_ok(v3(ray.origin), v3(ray.direction)),
    ensures
        (v3(r), final(rng).state) == ray_color_s(
            objects@, v3(ray.origin), v3(ray.direction), depth as nat, old(rng).state,
        ),
        okv(v3(r), CMAX as int),
    decreases depth,
{
    if depth == 0 {
        return Vec3::zero();
    }
    let n = objects.len();
    let mut k: usize = 0;
    let mut best: Option<Intersection> = None;
    let ghost mut bidx: int = 0;
    while k < n
        invariant
            k <= n,
            n == objects@.len(),
            scene_ok(objects@),
            ray_ok(v3(ray.origin), v3(ray.direction)),
            best is None ==> first_hit_s(objects@, v3(ray.origin), v3(ray.direction), k as nat) is None,
            best matches Some(b) ==> {
                &&& 0 <= bidx < k
                &&& inter_ok(b)
                &&& b.ray == *ray
                &&& b.material == objects@[bidx].material
                &&& first_hit_s(objects@, v3(ray.origin), v3(ray.direction), k as nat)
                    == Some((bidx, (b.t as int, v3(b.point), v3(b.normal), b.front)))
            },
        decreases n - k,
    {
        let cur = objects[k].intersect(ray, 1, T_MAX);
        match cur {
            None => {},
            Some(c) => {
                let take = match &best {
                    None => true,
                    Some(b) => c.t < b.t,
                };
                if take {
                    best = Some(c);
                    proof {
                        bidx = k as int;
                    }
                }
            },
        }
        k += 1;
    }
    match best {
        None => {
            proof {
                lemma_tdiv_shrinks(ray.direction.y as int + SCALE, 2);
            }
            let t = narrow(div_fx((ray.direction.y as i128) + 65536, 2));
            proof {
                lemma_abs_mul_bound(t as int, 0x408000, 32768, 65536);
                lemma_abs_mul_bound(t as int, 0x408000, 45875, 65536);
                lemma_abs_mul_bound(t as int, 0x408000, 65536, 65536);
                lemma_tdiv_bound(t as int * 32768, SCALE as int, 0x408000);
                lemma_tdiv_bound(t as int * 45875, SCALE as int, 0x408000);
                lemma_tdiv_bound(t as int * 65536, SCALE as int, 0x408000);
            }
            let cx = SCALE - t + narrow(div_fx((t as i128) * 32768, 65536));
            let cy = SCALE - t + narrow(div_fx((t as i128) * 45875, 65536));
            let cz = SCALE - t + narrow(div_fx((t as i128) * 65536, 65536));
            Vec3::new(cx, cy, cz)
        },
        Some(b) => {
            let (sray, att) = b.scatter(rng);
            proof {
                lemma_scatter_att_ok(
                    b.material, v3(b.point), v3(ray.direction), v3(b.normal), b.front, old(rng).state,
                );
            }
            let ok = -OB <= sray.origin.x && sray.origin.x <= OB
                && -OB <= sray.origin.y && sray.origin.y <= OB
                && -OB <= sray.origin.z && sray.origin.z <= OB
                && -MDB <= sray.direction.x && sray.direction.x <= MDB
                && -MDB <= sray.direction.y && sray.direction.y <= MDB
                && -MDB <= sray.direction.z && sray.direction.z <= MDB;
            if ok {
                let rec = ray_color(objects, &sray, depth - 1, rng);
                proof {
                    lemma_abs_mul_bound(att.x as int, SCALE as int, rec.x as int, CMAX as int);
                    lemma_abs_mul_bound(att.y as int, SCALE as int, rec.y as int, CMAX as int);
                    lemma_abs_mul_bound(att.z as int, SCALE as int, rec.z as int, CMAX as int);
                    lemma_tdiv_bound(att.x as int * rec.x as int, SCALE as int, CMAX as int);
                    lemma_tdiv_bound(att.y as int * rec.y as int, SCALE as int, CMAX as int);
                    lemma_tdiv_bound(att.z as int * rec.z as int, SCALE as int, CMAX as int);
                }
                att.cmul(rec)
            } else {
                Vec3::zero()
            }
        },
    }
}

/// With an empty scene the integrator returns exactly the background
/// gradient of the ray's direction, at any positive depth, and leaves the
/// random stream untouched.
pub proof fn lemma_empty_scene_background(ro: V3, rd: V3, depth: nat, state: u64)
    requires
        depth > 0,
    ensures
        ray_color_s(Seq::<Object>::empty(), ro, rd, depth, state) == (background_s(rd), state),
{
    assert(first_hit_s(Seq::<Object>::empty(), ro, rd, 0) is None);
}

/// With an exhausted depth budget the integrator returns exactly black,
/// for any ray and any scene, and leaves the random stream untouched.
pub proof fn lemma_depth_zero_black(objs: Seq<Object>, ro: V3, rd: V3, state: u64)
    ensures
        ray_color_s(objs, ro, rd, 0, state) == ((0int, 0int, 0int), state),
{
}

} // verus!
