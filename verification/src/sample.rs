use vstd::prelude::*;
use crate::{SCALE, tdiv};
use crate::vec3::{Vec3, bounded, sq3};

verus! {

/// Strictly inside the unit ball: every component within one unit and the
/// scaled squared length below one unit.
pub open spec fn in_unit_ball(p: Vec3) -> bool {
    bounded(p, SCALE as int) && tdiv(sq3(p), SCALE as int) < SCALE
}

/// Strictly inside the unit disk of the `z == 0` plane.
pub open spec fn in_unit_disk(p: Vec3) -> bool {
    in_unit_ball(p) && p.z == 0
}

/// Relies on `rand::Rng::gen_range` over `rand::thread_rng()`: a draw from a
/// nonempty integer range lies in that range.
#[verifier::external_body]
pub(crate) fn random_unit_scalar() -> (r: i64)
    ensures
        0 <= r < SCALE,
{
    rand::Rng::gen_range(&mut rand::thread_rng(), 0..SCALE)
}

/// One coordinate of a rejection-sampling candidate: a uniform draw over
/// `[-1, 1)` units.
fn random_coord() -> (r: i64)
    ensures
        -SCALE <= r <= SCALE,
{
    2 * random_unit_scalar() - SCALE
}

/// A point drawn from the unit ball by rejection sampling, as the diffuse
/// bounce and the fuzzy reflection use it. The attempt count is capped as a
/// defensive measure; the cap is reached with vanishing probability, and the
/// center of the ball stands in for a draw then.
pub fn random_in_unit_sphere() -> (p: Vec3)
    ensures
        in_unit_ball(p),
{
    let mut tries: u8 = 0;
    while tries < 64
        invariant
            true,
        decreases 64 - tries,
    {
        let p = Vec3 { x: random_coord(), y: random_coord(), z: random_coord() };
        let sl = p.squared_length();
        if sl < SCALE {
            return p;
        }
        tries = tries + 1;
    }
    let c = Vec3 { x: 0, y: 0, z: 0 };
    proof {
        assert(tdiv(sq3(c), SCALE as int) == 0);
    }
    c
}

/// A point drawn from the unit disk of the lens plane, by the same rejection
/// sampling as the ball.
pub fn random_in_unit_disk() -> (p: Vec3)
    ensures
        in_unit_disk(p),
{
    let mut tries: u8 = 0;
    while tries < 64
        invariant
            true,
        decreases 64 - tries,
    {
        let p = Vec3 { x: random_coord(), y: random_coord(), z: 0 };
        let sl = p.squared_length();
        if sl < SCALE {
            return p;
        }
        tries = tries + 1;
    }
    let c = Vec3 { x: 0, y: 0, z: 0 };
    proof {
        assert(tdiv(sq3(c), SCALE as int) == 0);
    }
    c
}

} // verus!
