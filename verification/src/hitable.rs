use vstd::prelude::*;
use crate::{SCALE, COORD_MAX, POS_MAX, NORM_MAX, DIR_MAX, T_LIM, tdiv, fmul, sdiv};
use crate::math::{
    in_range, sqrt_floor, fixed_mul, fixed_sqrt, lemma_tdiv_bound, lemma_tdiv_shrinks,
    lemma_mul_in_range, lemma_fmul_range, lemma_sqrt_le, lemma_unit_cancel,
};
use crate::vec3::{Vec3, bounded, sq3, dot3};
use crate::ray::{Ray, at3, lemma_at3_bound};
use crate::material::Material;

verus! {

/// The result of an intersection query: the ray parameter of the hit, the
/// hit point, the outward unit-ish normal, and the surface's material.
#[derive(Clone, Copy, Debug, PartialEq, Eq, Structural)]
pub struct HitRecord {
    pub t: i64,
    pub p: Vec3,
    pub normal: Vec3,
    pub material: Material,
}

impl HitRecord {
    /// A record an intersection query may hand out: the hit point and the
    /// normal within their ranges, the parameter within the ray's range, and
    /// a well-formed material.
    pub open spec fn wf(self) -> bool {
        &&& bounded(self.p, POS_MAX as int)
        &&& bounded(self.normal, NORM_MAX as int)
        &&& in_range(self.t as int, T_LIM as int)
        &&& self.material.wf()
    }

    pub fn t(&self) -> (r: i64)
        ensures
            r == self.t,
    {
        self.t
    }

    pub fn p(&self) -> (r: Vec3)
        ensures
            r == self.p,
    {
        self.p
    }

    pub fn normal(&self) -> (r: Vec3)
        ensures
            r == self.normal,
    {
        self.normal
    }

    pub fn material(&self) -> (r: Material)
        ensures
            r == self.material,
    {
        self.material
    }
}

/// A sphere: a center, a radius, and an owned material. A negative radius
/// models an inward-facing shell; the normal derives from
/// `(point - center) / radius`, so it flips with the sign.
#[derive(Clone, Copy, Debug, PartialEq, Eq, Structural)]
pub struct Sphere {
    pub center: Vec3,
    pub radius: i64,
    pub material: Material,
}

/// The quadratic coefficient `a = dot(d, d)` of a ray against a sphere.
pub open spec fn sphere_a(r: Ray) -> int {
    dot3(r.direction, r.direction)
}

/// The quadratic coefficient `b = dot(origin - center, d)`.
pub open spec fn sphere_b(s: Sphere, r: Ray) -> int {
    tdiv(
        (r.origin.x - s.center.x) * r.direction.x + (r.origin.y - s.center.y) * r.direction.y + (
        r.origin.z - s.center.z) * r.direction.z,
        SCALE as int,
    )
}

/// The quadratic coefficient `c = dot(oc, oc) - radius * radius`.
pub open spec fn sphere_c(s: Sphere, r: Ray) -> int {
    tdiv(
        (r.origin.x - s.center.x) * (r.origin.x - s.center.x) + (r.origin.y - s.center.y) * (
        r.origin.y - s.center.y) + (r.origin.z - s.center.z) * (r.origin.z - s.center.z),
        SCALE as int,
    ) - fmul(s.radius as int, s.radius as int)
}

/// The discriminant `b * b - a * c` of the sphere quadratic.
pub open spec fn sphere_disc(s: Sphere, r: Ray) -> int {
    fmul(sphere_b(s, r), sphere_b(s, r)) - fmul(sphere_a(r), sphere_c(s, r))
}

/// The accepted ray parameter of a sphere intersection: the smaller root if
/// it lies inside `(t_min, t_max)`, else the larger root if it does, else
/// nothing. A nonpositive discriminant, or a degenerate direction, is a miss.
pub open spec fn sphere_hit_t(s: Sphere, r: Ray, t_min: int, t_max: int) -> Option<int> {
    let a = sphere_a(r);
    let b = sphere_b(s, r);
    let disc = sphere_disc(s, r);
    if a <= 0 {
        None
    } else if disc > 0 {
        let root = sqrt_floor(disc * SCALE);
        let t1 = tdiv((-b - root) * SCALE, a);
        let t = if t1 >= t_max || t1 <= t_min {
            tdiv((-b + root) * SCALE, a)
        } else {
            t1
        };
        if t < t_max && t > t_min {
            Some(t)
        } else {
            None
        }
    } else {
        None
    }
}

/// The full record of a sphere intersection. The hit point and the normal
/// are range-checked before the record is handed out, so every record an
/// intersection query produces is well formed.
pub open spec fn sphere_hit(s: Sphere, r: Ray, t_min: int, t_max: int) -> Option<HitRecord> {
    match sphere_hit_t(s, r, t_min, t_max) {
        None => None,
        Some(t) => {
            let p = Vec3 {
                x: at3(r.origin.x as int, r.direction.x as int, t) as i64,
                y: at3(r.origin.y as int, r.direction.y as int, t) as i64,
                z: at3(r.origin.z as int, r.direction.z as int, t) as i64,
            };
            if bounded(p, POS_MAX as int) {
                let n = Vec3 {
                    x: sdiv(p.x - s.center.x, s.radius as int) as i64,
                    y: sdiv(p.y - s.center.y, s.radius as int) as i64,
                    z: sdiv(p.z - s.center.z, s.radius as int) as i64,
                };
                if bounded(n, NORM_MAX as int) {
                    Some(HitRecord { t: t as i64, p, normal: n, material: s.material })
                } else {
                    None
                }
            } else {
                None
            }
        },
    }
}

impl Sphere {
    /// A sphere the tracer can query: the center and the radius within the
    /// scene range, the radius nonzero, the material well formed.
    pub open spec fn wf(self) -> bool {
        &&& bounded(self.center, COORD_MAX as int)
        &&& self.radius != 0
        &&& in_range(self.radius as int, COORD_MAX as int)
        &&& self.material.wf()
    }

    pub fn new(center: Vec3, radius: i64, material: Material) -> (s: Sphere)
        requires
            bounded(center, COORD_MAX as int),
            radius != 0,
            in_range(radius as int, COORD_MAX as int),
            material.wf(),
        ensures
            s == (Sphere { center, radius, material }),
            s.wf(),
    {
        Sphere { center, radius, material }
    }

    /// Solve the sphere quadratic along the ray and hand back the nearest
    /// surface crossing inside `(t_min, t_max)`, if any.
    pub fn hit(&self, r: &Ray, t_min: i64, t_max: i64) -> (res: Option<HitRecord>)
        requires
            self.wf(),
            bounded(r.origin, POS_MAX as int),
            bounded(r.direction, DIR_MAX as int),
            in_range(t_min as int, T_LIM as int),
            in_range(t_max as int, T_LIM as int),
        ensures
            res == sphere_hit(*self, *r, t_min as int, t_max as int),
            res matches Some(h) ==> h.wf() && t_min < h.t < t_max && h.material == self.material,
            sphere_disc(*self, *r) <= 0 ==> res is None,
    {
        let oc = r.origin.sub(self.center);
        let a = Vec3::dot(r.direction, r.direction);
        let b = Vec3::dot(oc, r.direction);
        proof {
            lemma_sphere_coeff_fits(*self, *r);
        }
        let c = Vec3::dot(oc, oc) - fixed_mul(self.radius, self.radius);
        if a <= 0 {
            return None;
        }
        let disc = fixed_mul(b, b) - fixed_mul(a, c);
        if disc > 0 {
            let root = fixed_sqrt(disc);
            proof {
                lemma_sqrt_le(disc as int * SCALE, 0x60_0000_0000);
                assert(0x60_0000_0000 * 0x60_0000_0000int >= 0x1C5_0000_0000_0000_0 * (
                SCALE as int)) by (nonlinear_arith);
            }
            proof {
                lemma_mul_in_range(-(b as int) - (root as int), SCALE as int,
                    0x2_0000_0000_0000_0000, SCALE as int);
            }
            let num1: i128 = (-(b as i128) - (root as i128)) * (SCALE as i128);
            let t1: i128 = num1 / (a as i128);
            proof {
                lemma_tdiv_shrinks(num1 as int, a as int);
            }
            let t_sel: i128 = if t1 >= t_max as i128 || t1 <= t_min as i128 {
                proof {
                    lemma_mul_in_range(-(b as int) + (root as int), SCALE as int,
                        0x2_0000_0000_0000_0000, SCALE as int);
                }
                let num2: i128 = (-(b as i128) + (root as i128)) * (SCALE as i128);
                proof {
                    lemma_tdiv_shrinks(num2 as int, a as int);
                }
                num2 / (a as i128)
            } else {
                t1
            };
            if t_sel < t_max as i128 && t_sel > t_min as i128 {
                let t = t_sel as i64;
                let p = r.point_at_parameter(t);
                proof {
                    lemma_at3_bound(r.origin.x as int, r.direction.x as int, t as int);
                    lemma_at3_bound(r.origin.y as int, r.direction.y as int, t as int);
                    lemma_at3_bound(r.origin.z as int, r.direction.z as int, t as int);
                }
                if p.in_bounds(crate::POS_MAX) {
                    let n = p.sub(self.center).div_scalar(self.radius);
                    proof {
                        lemma_normal_cast(p, self.center, self.radius as int);
                    }
                    if n.in_bounds(crate::NORM_MAX) {
                        return Some(
                            HitRecord { t, p, normal: n, material: self.material },
                        );
                    }
                }
                return None;
            }
            None
        } else {
            None
        }
    }
}

/// Every coefficient of the sphere quadratic fits the machine word, with
/// room for the discriminant products.
proof fn lemma_sphere_coeff_fits(s: Sphere, r: Ray)
    requires
        s.wf(),
        bounded(r.origin, POS_MAX as int),
        bounded(r.direction, DIR_MAX as int),
    ensures
        in_range(sphere_a(r), 0x3_0000_0000),
        sphere_a(r) >= 0,
        in_range(sphere_b(s, r), 0x3C_0000_0000),
        in_range(sphere_c(s, r), 0x4C0_0000_0000),
        in_range(sphere_b(s, r) * sphere_b(s, r), i64::MAX * SCALE),
        in_range(fmul(sphere_b(s, r), sphere_b(s, r)), 0xE1_0000_0000_0000_0),
        in_range(sphere_a(r) * sphere_c(s, r), i64::MAX * SCALE),
        in_range(fmul(sphere_a(r), sphere_c(s, r)), 0xE4_0000_0000_0000_0),
        in_range(sphere_disc(s, r), 0x1C5_0000_0000_0000_0),
        in_range(s.radius as int * s.radius, i64::MAX * SCALE),
        in_range(fmul(s.radius as int, s.radius as int), 0x10_0000_0000),
{
    let ox = r.origin.x - s.center.x;
    let oy = r.origin.y - s.center.y;
    let oz = r.origin.z - s.center.z;
    let dx = r.direction.x as int;
    let dy = r.direction.y as int;
    let dz = r.direction.z as int;
    lemma_mul_in_range(dx, dx, DIR_MAX as int, DIR_MAX as int);
    lemma_mul_in_range(dy, dy, DIR_MAX as int, DIR_MAX as int);
    lemma_mul_in_range(dz, dz, DIR_MAX as int, DIR_MAX as int);
    assert(3 * (DIR_MAX as int * DIR_MAX) == 0x3_0000_0000 * (SCALE as int)) by (nonlinear_arith);
    lemma_tdiv_bound(dx * dx + dy * dy + dz * dz, SCALE as int, 0x3_0000_0000);
    assert(dx * dx >= 0 && dy * dy >= 0 && dz * dz >= 0) by (nonlinear_arith);
    lemma_tdiv_shrinks(dx * dx + dy * dy + dz * dz, SCALE as int);
    lemma_mul_in_range(ox, dx, 0x1400_0000, DIR_MAX as int);
    lemma_mul_in_range(oy, dy, 0x1400_0000, DIR_MAX as int);
    lemma_mul_in_range(oz, dz, 0x1400_0000, DIR_MAX as int);
    assert(3 * (0x1400_0000 * (DIR_MAX as int)) == 0x3C_0000_0000 * (SCALE as int))
        by (nonlinear_arith);
    lemma_tdiv_bound(ox * dx + oy * dy + oz * dz, SCALE as int, 0x3C_0000_0000);
    lemma_mul_in_range(ox, ox, 0x1400_0000, 0x1400_0000);
    lemma_mul_in_range(oy, oy, 0x1400_0000, 0x1400_0000);
    lemma_mul_in_range(oz, oz, 0x1400_0000, 0x1400_0000);
    assert(3 * (0x1400_0000 * 0x1400_0000int) == 0x4B0_0000_0000 * (SCALE as int))
        by (nonlinear_arith);
    lemma_tdiv_bound(ox * ox + oy * oy + oz * oz, SCALE as int, 0x4B0_0000_0000);
    lemma_fmul_range(s.radius as int, s.radius as int, COORD_MAX as int, COORD_MAX as int,
        0x10_0000_0000);
    assert(COORD_MAX as int * COORD_MAX == 0x10_0000_0000 * (SCALE as int)) by (nonlinear_arith);
    lemma_fmul_range(sphere_b(s, r), sphere_b(s, r), 0x3C_0000_0000, 0x3C_0000_0000,
        0xE1_0000_0000_0000_0);
    assert(0x3C_0000_0000 * 0x3C_0000_0000int == 0xE1_0000_0000_0000_0 * (SCALE as int))
        by (nonlinear_arith);
    lemma_fmul_range(sphere_a(r), sphere_c(s, r), 0x3_0000_0000, 0x4C0_0000_0000,
        0xE4_0000_0000_0000_0);
    assert(0x3_0000_0000 * 0x4C0_0000_0000int == 0xE4_0000_0000_0000_0 * (SCALE as int))
        by (nonlinear_arith);
}

/// The components of the range-checked normal survive the word-size cast.
proof fn lemma_normal_cast(p: Vec3, center: Vec3, radius: int)
    requires
        bounded(p, POS_MAX as int),
        bounded(center, COORD_MAX as int),
        radius != 0,
    ensures
        in_range(sdiv(p.x - center.x, radius), i64::MAX as int),
        in_range(sdiv(p.y - center.y, radius), i64::MAX as int),
        in_range(sdiv(p.z - center.z, radius), i64::MAX as int),
{
    lemma_sdiv_cast(p.x - center.x, radius);
    lemma_sdiv_cast(p.y - center.y, radius);
    lemma_sdiv_cast(p.z - center.z, radius);
}

/// A scaled quotient of an in-range numerator stays within the machine word.
proof fn lemma_sdiv_cast(x: int, d: int)
    requires
        in_range(x, 0x1400_0000),
        d != 0,
    ensures
        in_range(sdiv(x, d), i64::MAX as int),
{
    lemma_mul_in_range(x, SCALE as int, 0x1400_0000, SCALE as int);
    if d > 0 {
        lemma_tdiv_shrinks(x * SCALE, d);
    } else {
        lemma_tdiv_shrinks(-(x * SCALE), -d);
    }
}

/// An insertion-ordered aggregate of spheres, queried linearly for the
/// nearest hit.
pub struct HitableList {
    pub spheres: Vec<Sphere>,
}

/// The hit the aggregate reports for the members `spheres`: the member hit
/// with the smallest parameter, the earliest member on ties.
pub open spec fn list_hit(spheres: Seq<Sphere>, r: Ray, t_min: int, t_max: int) -> Option<
    HitRecord,
>
    decreases spheres.len(),
{
    if spheres.len() == 0 {
        None
    } else {
        let prev = list_hit(spheres.drop_last(), r, t_min, t_max);
        let cur = sphere_hit(spheres.last(), r, t_min, t_max);
        match cur {
            None => prev,
            Some(h) => match prev {
                None => Some(h),
                Some(g) => if h.t < g.t {
                    Some(h)
                } else {
                    Some(g)
                },
            },
        }
    }
}

impl HitableList {
    /// Every member well formed.
    pub open spec fn wf(self) -> bool {
        forall|i: int| 0 <= i < self.spheres@.len() ==> (#[trigger] self.spheres@[i]).wf()
    }

    pub fn new() -> (r: HitableList)
        ensures
            r.spheres@.len() == 0,
            r.wf(),
    {
        HitableList { spheres: Vec::new() }
    }

    pub fn push(&mut self, obj: Sphere)
        requires
            obj.wf(),
        ensures
            final(self).spheres@ == old(self).spheres@.push(obj),
            old(self).wf() ==> final(self).wf(),
    {
        self.spheres.push(obj);
    }

    /// Query every member and keep the nearest accepted hit: the returned
    /// record is the member hit with the smallest parameter inside
    /// `(t_min, t_max)`, the earliest member on ties.
    pub fn hit(&self, r: &Ray, t_min: i64, t_max: i64) -> (res: Option<HitRecord>)
        requires
            self.wf(),
            bounded(r.origin, POS_MAX as int),
            bounded(r.direction, DIR_MAX as int),
            in_range(t_min as int, T_LIM as int),
            in_range(t_max as int, T_LIM as int),
        ensures
            res == list_hit(self.spheres@, *r, t_min as int, t_max as int),
            res matches Some(h) ==> h.wf() && t_min < h.t < t_max,
    {
        let ghost all = self.spheres@;
        let mut best: Option<HitRecord> = None;
        let mut i: usize = 0;
        while i < self.spheres.len()
            invariant
                0 <= i <= self.spheres@.len(),
                self.spheres@ == all,
                self.wf(),
                bounded(r.origin, POS_MAX as int),
                bounded(r.direction, DIR_MAX as int),
                in_range(t_min as int, T_LIM as int),
                in_range(t_max as int, T_LIM as int),
                best == list_hit(self.spheres@.take(i as int), *r, t_min as int, t_max as int),
                best matches Some(h) ==> h.wf() && t_min < h.t < t_max,
            decreases self.spheres@.len() - i,
        {
            let this_hit = self.spheres[i].hit(r, t_min, t_max);
            proof {
                assert(self.spheres@.take(i + 1).drop_last() =~= self.spheres@.take(i as int));
                assert(self.spheres@.take(i + 1).last() == self.spheres@[i as int]);
            }
            match this_hit {
                Some(h) => {
                    match best {
                        None => {
                            best = Some(h);
                        },
                        Some(g) => {
                            if h.t < g.t {
                                best = Some(h);
                            }
                        },
                    }
                },
                None => {},
            }
            i = i + 1;
        }
        proof {
            assert(self.spheres@.take(self.spheres@.len() as int) =~= self.spheres@);
        }
        best
    }
}

/// The aggregate's hit is the nearest member hit: nothing comes back exactly
/// when no member hits, and a returned record is some member's own hit whose
/// parameter no other member hit undercuts.
pub proof fn lemma_list_hit_nearest(spheres: Seq<Sphere>, r: Ray, t_min: int, t_max: int)
    ensures
        (list_hit(spheres, r, t_min, t_max) is None) <==> (forall|i: int|
            0 <= i < spheres.len() ==> (#[trigger] sphere_hit(spheres[i], r, t_min, t_max))
                is None),
        list_hit(spheres, r, t_min, t_max) matches Some(h) ==> {
            &&& exists|i: int|
                0 <= i < spheres.len() && (#[trigger] sphere_hit(spheres[i], r, t_min, t_max))
                    == Some(h)
            &&& forall|i: int|
                0 <= i < spheres.len() ==> ((#[trigger] sphere_hit(spheres[i], r, t_min, t_max))
                    matches Some(g) ==> h.t <= g.t)
        },
    decreases spheres.len(),
{
    if spheres.len() > 0 {
        lemma_list_hit_nearest(spheres.drop_last(), r, t_min, t_max);
        assert(spheres.drop_last() =~= spheres.take(spheres.len() - 1));
        assert forall|i: int| 0 <= i < spheres.len() - 1 implies spheres.drop_last()[i]
            == spheres[i] by {}
    }
}


/// A ray through the center of a sphere enters it at the distance to the
/// center minus the radius. Stated for a ray whose direction is exactly one
/// unit long, a center exactly `dist` along the ray, and a radius whose
/// square is a whole number of scale steps, so that no division truncates.
pub proof fn lemma_sphere_entry_hit(s: Sphere, r: Ray, t_min: int, t_max: int, dist: int)
    requires
        sq3(r.direction) == SCALE as int * SCALE,
        dist > 0,
        (s.center.x - r.origin.x) * SCALE == dist * r.direction.x,
        (s.center.y - r.origin.y) * SCALE == dist * r.direction.y,
        (s.center.z - r.origin.z) * SCALE == dist * r.direction.z,
        0 < s.radius < dist,
        SCALE as int <= s.radius * s.radius,
        tdiv(s.radius as int * s.radius, SCALE as int) * SCALE == s.radius as int * s.radius,
        t_min < dist - s.radius < t_max,
    ensures
        sphere_hit_t(s, r, t_min, t_max) == Some(dist - s.radius),
{
    let dx = r.direction.x as int;
    let dy = r.direction.y as int;
    let dz = r.direction.z as int;
    let ox = r.origin.x - s.center.x;
    let oy = r.origin.y - s.center.y;
    let oz = r.origin.z - s.center.z;
    let rad = s.radius as int;
    // The quadratic coefficient of the direction is exactly one unit.
    assert(sphere_a(r) == SCALE) by {
        lemma_unit_cancel(SCALE as int);
    }
    // The linear coefficient is exactly the negated distance.
    assert(ox * dx * SCALE == -(dist * (dx * dx))) by (nonlinear_arith)
        requires
            ox * SCALE == -(dist * dx),
    ;
    assert(oy * dy * SCALE == -(dist * (dy * dy))) by (nonlinear_arith)
        requires
            oy * SCALE == -(dist * dy),
    ;
    assert(oz * dz * SCALE == -(dist * (dz * dz))) by (nonlinear_arith)
        requires
            oz * SCALE == -(dist * dz),
    ;
    assert((ox * dx + oy * dy + oz * dz) * SCALE == -(dist * (SCALE as int * SCALE)))
        by (nonlinear_arith)
        requires
            ox * dx * SCALE == -(dist * (dx * dx)),
            oy * dy * SCALE == -(dist * (dy * dy)),
            oz * dz * SCALE == -(dist * (dz * dz)),
            dx * dx + dy * dy + dz * dz == SCALE as int * SCALE,
    ;
    assert(ox * dx + oy * dy + oz * dz == -(dist * SCALE)) by (nonlinear_arith)
        requires
            (ox * dx + oy * dy + oz * dz) * SCALE == -(dist * (SCALE as int * SCALE)),
            SCALE == 65536,
    ;
    assert(sphere_b(s, r) == -dist) by {
        assert(tdiv(-(dist * SCALE), SCALE as int) == -dist) by {
            lemma_unit_cancel(dist);
        }
    }
    // The squared center offset is exactly the squared distance.
    assert(ox * ox * (SCALE as int * SCALE) == dist * dist * (dx * dx)) by (nonlinear_arith)
        requires
            ox * SCALE == -(dist * dx),
    ;
    assert(oy * oy * (SCALE as int * SCALE) == dist * dist * (dy * dy)) by (nonlinear_arith)
        requires
            oy * SCALE == -(dist * dy),
    ;
    assert(oz * oz * (SCALE as int * SCALE) == dist * dist * (dz * dz)) by (nonlinear_arith)
        requires
            oz * SCALE == -(dist * dz),
    ;
    assert((ox * ox + oy * oy + oz * oz) * (SCALE as int * SCALE) == dist * dist * (
    SCALE as int * SCALE)) by (nonlinear_arith)
        requires
            ox * ox * (SCALE as int * SCALE) == dist * dist * (dx * dx),
            oy * oy * (SCALE as int * SCALE) == dist * dist * (dy * dy),
            oz * oz * (SCALE as int * SCALE) == dist * dist * (dz * dz),
            dx * dx + dy * dy + dz * dz == SCALE as int * SCALE,
    ;
    assert(ox * ox + oy * oy + oz * oz == dist * dist) by (nonlinear_arith)
        requires
            (ox * ox + oy * oy + oz * oz) * (SCALE as int * SCALE) == dist * dist * (
            SCALE as int * SCALE),
            SCALE == 65536,
    ;
    let cc = sphere_c(s, r);
    assert(cc == tdiv(dist * dist, SCALE as int) - tdiv(rad * rad, SCALE as int));
    // The discriminant collapses to the scaled squared radius.
    assert(fmul(sphere_a(r), cc) == cc) by {
        lemma_fmul_one(cc);
    }
    assert(fmul(sphere_b(s, r), sphere_b(s, r)) == tdiv(dist * dist, SCALE as int)) by {
        assert((-dist) * (-dist) == dist * dist) by (nonlinear_arith);
    }
    let disc = sphere_disc(s, r);
    assert(disc == tdiv(rad * rad, SCALE as int));
    assert(disc >= 1) by {
        lemma_tdiv_ordered_here(SCALE as int, rad * rad);
    }
    assert(disc * SCALE == rad * rad);
    assert(sqrt_floor(disc * SCALE) == rad) by {
        assert((rad + 1) * (rad + 1) > rad * rad >= 0) by (nonlinear_arith)
            requires
                rad > 0,
        ;
        crate::math::lemma_sqrt_unique(rad * rad, rad);
    }
    // The smaller root is exactly the entry distance and lies in the window.
    assert(tdiv((dist - rad) * SCALE, SCALE as int) == dist - rad) by {
        lemma_unit_cancel(dist - rad);
    }
    assert(-sphere_b(s, r) - sqrt_floor(disc * SCALE) == dist - rad);
}

/// Multiplying by one unit in fixed point is the identity.
proof fn lemma_fmul_one(x: int)
    ensures
        fmul(SCALE as int, x) == x,
{
    assert(SCALE as int * x == x * SCALE) by (nonlinear_arith);
    lemma_unit_cancel(x);
}

/// A quotient of ordered nonnegative values by the scale is at least one
/// when the dividend is at least the scale.
proof fn lemma_tdiv_ordered_here(lo: int, x: int)
    requires
        0 < lo <= x,
        lo == SCALE,
    ensures
        tdiv(x, SCALE as int) >= 1,
{
    vstd::arithmetic::div_mod::lemma_div_is_ordered(lo, x, SCALE as int);
    assert(tdiv(lo, SCALE as int) == 1) by {
        vstd::arithmetic::div_mod::lemma_div_by_self(SCALE as int);
    }
}

} // verus!
