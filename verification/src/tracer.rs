use vstd::prelude::*;
use crate::{SCALE, DIR_MAX, POS_MAX, T_LIM, tdiv, fmul};
use crate::math::lemma_fmul_color;
use crate::vec3::{Vec3, bounded, sq3, unit3, color_in_range};
use crate::ray::Ray;
use crate::hitable::{HitableList, list_hit};

verus! {

/// The positive lower ray bound every shading query uses, suppressing
/// self-intersection of a scattered ray with its own origin surface.
pub const T_EPS: i64 = 66;

/// The depth budget: a path is cut off after this many bounces.
pub const MAX_DEPTH: u8 = 50;

/// The background gradient: white blended toward sky blue by the height of
/// the unit direction.
pub open spec fn background3(r: Ray) -> Vec3 {
    let t = tdiv(unit3(r.direction.y as int, r.direction) + SCALE, 2);
    Vec3 {
        x: (SCALE - t + fmul(t, 32768)) as i64,
        y: (SCALE - t + fmul(t, 45875)) as i64,
        z: (SCALE - t + fmul(t, SCALE as int)) as i64,
    }
}

/// The environment term: what a ray that hits nothing contributes.
pub fn background(r: &Ray) -> (res: Vec3)
    requires
        bounded(r.direction, DIR_MAX as int),
        sq3(r.direction) > 0,
    ensures
        res == background3(*r),
        color_in_range(res),
{
    let unit = r.direction.unit_vector();
    let t = (unit.y + SCALE) / 2;
    proof {
        lemma_fmul_color(t as int, 32768);
        lemma_fmul_color(t as int, 45875);
        lemma_fmul_color(t as int, SCALE as int);
    }
    Vec3 {
        x: SCALE - t + crate::math::fixed_mul(t, 32768),
        y: SCALE - t + crate::math::fixed_mul(t, 45875),
        z: SCALE - t + crate::math::fixed_mul(t, SCALE),
    }
}

/// The recursive radiance function: intersect the ray against the scene,
/// let the hit material scatter, and attenuate the radiance of the scattered
/// ray; a miss contributes the background gradient, and absorption or an
/// exhausted depth budget contributes black. A scattered direction that
/// degenerates to zero, or leaves the representable direction range, is
/// treated as absorbed.
pub fn color(r: &Ray, world: &HitableList, depth: u8) -> (res: Vec3)
    requires
        world.wf(),
        bounded(r.origin, POS_MAX as int),
        bounded(r.direction, DIR_MAX as int),
        sq3(r.direction) > 0,
    ensures
        color_in_range(res),
        list_hit(world.spheres@, *r, T_EPS as int, T_LIM as int) is None ==> res == background3(
            *r,
        ),
        list_hit(world.spheres@, *r, T_EPS as int, T_LIM as int) is Some && depth >= MAX_DEPTH
            ==> res == (Vec3 { x: 0, y: 0, z: 0 }),
    decreases 50int - depth,
{
    match world.hit(r, T_EPS, T_LIM) {
        None => background(r),
        Some(hit) => {
            if depth < MAX_DEPTH {
                let material = hit.material();
                match material.scatter(r, &hit) {
                    Some((attenuation, scattered)) => {
                        let d = scattered.direction;
                        let live = d.in_bounds(crate::DIR_MAX) && (d.x != 0 || d.y != 0 || d.z
                            != 0);
                        proof {
                            assert(d.x != 0 ==> d.x * d.x > 0) by (nonlinear_arith);
                            assert(d.y != 0 ==> d.y * d.y > 0) by (nonlinear_arith);
                            assert(d.z != 0 ==> d.z * d.z > 0) by (nonlinear_arith);
                            assert(d.x * d.x >= 0 && d.y * d.y >= 0 && d.z * d.z >= 0)
                                by (nonlinear_arith);
                        }
                        if live {
                            let rec = color(&scattered, world, depth + 1);
                            proof {
                                lemma_fmul_color(attenuation.x as int, rec.x as int);
                                lemma_fmul_color(attenuation.y as int, rec.y as int);
                                lemma_fmul_color(attenuation.z as int, rec.z as int);
                            }
                            attenuation.mul(rec)
                        } else {
                            Vec3 { x: 0, y: 0, z: 0 }
                        }
                    },
                    None => Vec3 { x: 0, y: 0, z: 0 },
                }
            } else {
                Vec3 { x: 0, y: 0, z: 0 }
            }
        },
    }
}

} // verus!
