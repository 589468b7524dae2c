use vstd::prelude::*;
use crate::{SCALE, VMAX, DIR_MAX, T_LIM, fmul};
use crate::math::{in_range, lemma_mul_in_range, lemma_tdiv_bound, mul_div};
use crate::vec3::{Vec3, bounded};

verus! {

/// A ray: an origin and an unnormalized direction.
#[derive(Clone, Copy, Debug, PartialEq, Eq, Structural)]
pub struct Ray {
    pub origin: Vec3,
    pub direction: Vec3,
}

/// One component of the point the ray reaches at parameter `t`.
pub open spec fn at3(o: int, d: int, t: int) -> int {
    o + fmul(t, d)
}

impl Ray {
    pub fn new(origin: Vec3, direction: Vec3) -> (r: Ray)
        ensures
            r == (Ray { origin, direction }),
    {
        Ray { origin, direction }
    }

    pub fn origin(&self) -> (r: Vec3)
        ensures
            r == self.origin,
    {
        self.origin
    }

    pub fn direction(&self) -> (r: Vec3)
        ensures
            r == self.direction,
    {
        self.direction
    }

    /// The point `origin + t * direction`.
    pub fn point_at_parameter(&self, t: i64) -> (r: Vec3)
        requires
            bounded(self.origin, VMAX as int),
            bounded(self.direction, DIR_MAX as int),
            in_range(t as int, T_LIM as int),
        ensures
            r.x == at3(self.origin.x as int, self.direction.x as int, t as int),
            r.y == at3(self.origin.y as int, self.direction.y as int, t as int),
            r.z == at3(self.origin.z as int, self.direction.z as int, t as int),
    {
        proof {
            lemma_at3_bound(self.origin.x as int, self.direction.x as int, t as int);
            lemma_at3_bound(self.origin.y as int, self.direction.y as int, t as int);
            lemma_at3_bound(self.origin.z as int, self.direction.z as int, t as int);
        }
        Vec3 {
            x: self.origin.x + mul_div(t, self.direction.x, SCALE),
            y: self.origin.y + mul_div(t, self.direction.y, SCALE),
            z: self.origin.z + mul_div(t, self.direction.z, SCALE),
        }
    }
}

/// A ray parameter within range moves an in-range origin by less than a
/// machine word: `at3` stays well clear of overflow.
pub proof fn lemma_at3_bound(o: int, d: int, t: int)
    requires
        in_range(o, VMAX as int),
        in_range(d, DIR_MAX as int),
        in_range(t, T_LIM as int),
    ensures
        in_range(fmul(t, d), 0x1_0000_0000_0000),
        in_range(at3(o, d, t), i64::MAX as int),
{
    lemma_mul_in_range(t, d, T_LIM as int, DIR_MAX as int);
    assert(T_LIM as int * DIR_MAX == 0x1_0000_0000_0000 * (SCALE as int)) by (nonlinear_arith);
    lemma_tdiv_bound(t * d, SCALE as int, 0x1_0000_0000_0000);
}

} // verus!
