use vstd::prelude::*;
use crate::{SCALE, DIR_MAX, NORM_MAX, RI_MAX, tdiv, fmul};
use crate::math::{
    in_range, sqrt_floor, fixed_mul, mul_div, fixed_sqrt, lemma_tdiv_bound, lemma_mul_in_range,
    lemma_fmul_unit, lemma_sqrt_le, lemma_fmul_range, lemma_unit_cancel,
};
use crate::vec3::{
    Vec3, bounded, sq3, dot3, len3, unit_vec3, color_in_range, lemma_dot3_range,
    lemma_len_dominates, lemma_unit_vec3_bounded,
};
use crate::ray::Ray;
use crate::hitable::HitRecord;
use crate::sample::{in_unit_ball, random_in_unit_sphere, random_unit_scalar};

verus! {

/// Largest magnitude the refraction ratio can take: the inverse of the
/// smallest representable refractive index.
pub const NI_LIM: i64 = 0x1_0000_0000;

/// A diffuse surface with a base color.
#[derive(Clone, Copy, Debug, PartialEq, Eq, Structural)]
pub struct Lambertian {
    pub albedo: Vec3,
}

/// A specular surface with a base color and a roughness in `[0, 1]`.
#[derive(Clone, Copy, Debug, PartialEq, Eq, Structural)]
pub struct Metal {
    pub albedo: Vec3,
    pub fuzz: i64,
}

/// A clear refractive surface with a refractive index.
#[derive(Clone, Copy, Debug, PartialEq, Eq, Structural)]
pub struct Dielectric {
    pub ref_idx: i64,
}

/// The closed set of surface materials, dispatched by matching.
#[derive(Clone, Copy, Debug, PartialEq, Eq, Structural)]
pub enum Material {
    Lambertian(Lambertian),
    Metal(Metal),
    Dielectric(Dielectric),
}

impl Material {
    /// A material the tracer can shade with: colors within one unit per
    /// channel, roughness within one unit, a positive refractive index.
    pub open spec fn wf(self) -> bool {
        match self {
            Material::Lambertian(l) => color_in_range(l.albedo),
            Material::Metal(m) => color_in_range(m.albedo) && 0 <= m.fuzz <= SCALE,
            Material::Dielectric(d) => 0 < d.ref_idx <= RI_MAX,
        }
    }

    /// Shade one bounce: dispatch to the variant's scattering model. A
    /// scattered ray always leaves the hit point, with an attenuation that
    /// is a color; diffuse and refractive surfaces always scatter.
    pub fn scatter(&self, r: &Ray, hit: &HitRecord) -> (res: Option<(Vec3, Ray)>)
        requires
            self.wf(),
            hit.wf(),
            bounded(r.direction, DIR_MAX as int),
            sq3(r.direction) > 0,
        ensures
            res is Some ==> res.unwrap().1.origin == hit.p,
            res is Some ==> color_in_range(res.unwrap().0),
            self matches Material::Lambertian(l) ==> res is Some && res.unwrap().0 == l.albedo,
            self matches Material::Dielectric(d) ==> res is Some && res.unwrap().0 == (Vec3 {
                x: SCALE,
                y: SCALE,
                z: SCALE,
            }),
    {
        match self {
            Material::Lambertian(l) => Some(l.scatter(r, hit)),
            Material::Metal(m) => m.scatter(r, hit),
            Material::Dielectric(d) => Some(d.scatter(r, hit)),
        }
    }
}

impl Lambertian {
    pub fn new(albedo: Vec3) -> (r: Lambertian)
        requires
            color_in_range(albedo),
        ensures
            r.albedo == albedo,
    {
        Lambertian { albedo }
    }

    /// Diffuse bounce: the scattered ray leaves the hit point toward the
    /// normal offset by a point of the unit ball; the attenuation is the
    /// albedo, and the surface always scatters.
    pub fn scatter(&self, _r: &Ray, hit: &HitRecord) -> (res: (Vec3, Ray))
        requires
            hit.wf(),
        ensures
            res.0 == self.albedo,
            res.1.origin == hit.p,
            exists|s: Vec3|
                #[trigger] in_unit_ball(s) && res.1.direction.x == hit.normal.x + s.x
                    && res.1.direction.y == hit.normal.y + s.y && res.1.direction.z == hit.normal.z
                    + s.z,
    {
        let s = random_in_unit_sphere();
        let direction = hit.normal.add(s);
        (self.albedo, Ray { origin: hit.p, direction })
    }
}

/// One component of the mirror reflection `v - 2 * Vec3::dot(v, n) * n`.
pub open spec fn reflect_c(cv: int, cn: int, d: int) -> int {
    cv - fmul(2 * d, cn)
}

/// The mirror reflection of `v` about `n`, componentwise.
pub open spec fn reflect_vec(v: Vec3, n: Vec3) -> Vec3 {
    let d = dot3(v, n);
    Vec3 {
        x: reflect_c(v.x as int, n.x as int, d) as i64,
        y: reflect_c(v.y as int, n.y as int, d) as i64,
        z: reflect_c(v.z as int, n.z as int, d) as i64,
    }
}

/// The mirror reflection of the unit vector of `v` about `n`: the specular
/// direction a metal surface reflects toward.
pub open spec fn mirror3(v: Vec3, n: Vec3) -> Vec3 {
    reflect_vec(unit_vec3(v), n)
}

/// The candidate direction of a fuzzy metal bounce: the mirror direction
/// perturbed by `fuzz` times a point of the unit ball.
pub open spec fn metal_dir(v: Vec3, n: Vec3, fuzz: int, s: Vec3) -> Vec3 {
    let m = mirror3(v, n);
    Vec3 {
        x: (m.x + fmul(fuzz, s.x as int)) as i64,
        y: (m.y + fmul(fuzz, s.y as int)) as i64,
        z: (m.z + fmul(fuzz, s.z as int)) as i64,
    }
}

/// The mirror reflection `v - 2 * Vec3::dot(v, n) * n`, made executable.
pub fn reflect(v: &Vec3, n: &Vec3) -> (r: Vec3)
    requires
        bounded(*v, DIR_MAX as int),
        bounded(*n, NORM_MAX as int),
    ensures
        r == reflect_vec(*v, *n),
{
    let d = Vec3::dot(*v, *n);
    proof {
        lemma_reflect_fits(*v, *n);
    }
    Vec3 {
        x: v.x - fixed_mul(2 * d, n.x),
        y: v.y - fixed_mul(2 * d, n.y),
        z: v.z - fixed_mul(2 * d, n.z),
    }
}

/// Every intermediate of the reflection formula fits the machine word.
proof fn lemma_reflect_fits(v: Vec3, n: Vec3)
    requires
        bounded(v, DIR_MAX as int),
        bounded(n, NORM_MAX as int),
    ensures
        in_range(2 * dot3(v, n), 0x1800_0000_0000),
        in_range(2 * dot3(v, n) * n.x, i64::MAX * SCALE),
        in_range(2 * dot3(v, n) * n.y, i64::MAX * SCALE),
        in_range(2 * dot3(v, n) * n.z, i64::MAX * SCALE),
        in_range(fmul(2 * dot3(v, n), n.x as int), 0x6000_0000_0000),
        in_range(fmul(2 * dot3(v, n), n.y as int), 0x6000_0000_0000),
        in_range(fmul(2 * dot3(v, n), n.z as int), 0x6000_0000_0000),
{
    lemma_dot3_range(v, n, DIR_MAX as int, NORM_MAX as int);
    assert(3 * (DIR_MAX as int * NORM_MAX) == 0xC00_0000_0000) by (nonlinear_arith);
    let d2 = 2 * dot3(v, n);
    lemma_fmul_range(d2, n.x as int, 0x1800_0000_0000, NORM_MAX as int, 0x6000_0000_0000);
    lemma_fmul_range(d2, n.y as int, 0x1800_0000_0000, NORM_MAX as int, 0x6000_0000_0000);
    lemma_fmul_range(d2, n.z as int, 0x1800_0000_0000, NORM_MAX as int, 0x6000_0000_0000);
    assert(0x1800_0000_0000 * (NORM_MAX as int) == 0x6000_0000_0000 * (SCALE as int))
        by (nonlinear_arith);
}

/// At normal incidence on an exactly-unit normal, the mirror direction is the
/// exact negation of the incoming unit direction.
pub proof fn lemma_mirror_normal_incidence(v: Vec3, n: Vec3)
    requires
        v.x == -(n.x as int) && v.y == -(n.y as int) && v.z == -(n.z as int),
        sq3(n) == SCALE as int * SCALE,
        bounded(n, SCALE as int),
    ensures
        mirror3(v, n) == n,
        mirror3(v, n).x == -(v.x as int),
        mirror3(v, n).y == -(v.y as int),
        mirror3(v, n).z == -(v.z as int),
{
    assert(sq3(v) == sq3(n)) by (nonlinear_arith)
        requires
            v.x == -(n.x as int) && v.y == -(n.y as int) && v.z == -(n.z as int),
    ;
    assert(len3(v) == SCALE) by {
        assert((SCALE as int + 1) * (SCALE as int + 1) > SCALE as int * SCALE)
            by (nonlinear_arith);
        crate::math::lemma_sqrt_unique(sq3(v), SCALE as int);
    }
    let u = unit_vec3(v);
    lemma_unit_cancel(v.x as int);
    lemma_unit_cancel(v.y as int);
    lemma_unit_cancel(v.z as int);
    assert(u.x == v.x && u.y == v.y && u.z == v.z);
    let d = dot3(u, n);
    assert(u.x as int * n.x + u.y as int * n.y + u.z as int * n.z == -(sq3(n)))
        by (nonlinear_arith)
        requires
            u.x == v.x && u.y == v.y && u.z == v.z,
            v.x == -(n.x as int) && v.y == -(n.y as int) && v.z == -(n.z as int),
            sq3(n) == n.x * n.x + n.y * n.y + n.z * n.z,
    ;
    assert(d == -(SCALE as int)) by {
        lemma_unit_cancel(-(SCALE as int));
        assert(-(SCALE as int * SCALE) == -(SCALE as int) * SCALE) by (nonlinear_arith);
    }
    assert(2 * d == (-2) * SCALE);
    lemma_fmul_unit(-2, n.x as int);
    lemma_fmul_unit(-2, n.y as int);
    lemma_fmul_unit(-2, n.z as int);
}

impl Metal {
    /// Out-of-range roughness is clamped to one unit, never rejected.
    pub fn new(albedo: Vec3, fuzz: i64) -> (r: Metal)
        requires
            color_in_range(albedo),
        ensures
            r.albedo == albedo,
            r.fuzz == if 0 <= fuzz <= SCALE {
                fuzz as int
            } else {
                SCALE as int
            },
    {
        if fuzz < 0 || fuzz > SCALE {
            Metal { albedo, fuzz: SCALE }
        } else {
            Metal { albedo, fuzz }
        }
    }

    /// Specular bounce: mirror the normalized incoming direction about the
    /// normal, perturb it by `fuzz` times a point of the unit ball, and
    /// reject the bounce when the result does not point away from the
    /// surface.
    pub fn scatter(&self, r: &Ray, hit: &HitRecord) -> (res: Option<(Vec3, Ray)>)
        requires
            0 <= self.fuzz <= SCALE,
            hit.wf(),
            bounded(r.direction, DIR_MAX as int),
            sq3(r.direction) > 0,
        ensures
            match res {
                Some((att, sc)) => {
                    &&& att == self.albedo
                    &&& sc.origin == hit.p
                    &&& dot3(sc.direction, hit.normal) > 0
                    &&& exists|s: Vec3|
                        #[trigger] in_unit_ball(s) && sc.direction == metal_dir(
                            r.direction,
                            hit.normal,
                            self.fuzz as int,
                            s,
                        )
                },
                None => exists|s: Vec3|
                    #[trigger] in_unit_ball(s) && dot3(
                        metal_dir(r.direction, hit.normal, self.fuzz as int, s),
                        hit.normal,
                    ) <= 0,
            },
            self.fuzz == 0 ==> (res is Some <==> dot3(
                mirror3(r.direction, hit.normal),
                hit.normal,
            ) > 0),
            self.fuzz == 0 && res is Some ==> res.unwrap().1.direction == mirror3(
                r.direction,
                hit.normal,
            ),
    {
        let unit = r.direction.unit_vector();
        let reflected = reflect(&unit, &hit.normal);
        proof {
            lemma_metal_fits(r.direction, hit.normal);
        }
        let s = random_in_unit_sphere();
        let dir = if self.fuzz > 0 {
            proof {
                lemma_fmul_range(self.fuzz as int, s.x as int, SCALE as int, SCALE as int,
                    SCALE as int);
                lemma_fmul_range(self.fuzz as int, s.y as int, SCALE as int, SCALE as int,
                    SCALE as int);
                lemma_fmul_range(self.fuzz as int, s.z as int, SCALE as int, SCALE as int,
                    SCALE as int);
                assert(SCALE as int * SCALE == SCALE as int * SCALE) by (nonlinear_arith);
            }
            Vec3 {
                x: reflected.x + fixed_mul(self.fuzz, s.x),
                y: reflected.y + fixed_mul(self.fuzz, s.y),
                z: reflected.z + fixed_mul(self.fuzz, s.z),
            }
        } else {
            proof {
                lemma_fuzz_zero(s);
            }
            reflected
        };
        proof {
            assert(dir == metal_dir(r.direction, hit.normal, self.fuzz as int, s));
        }
        let d = Vec3::dot(dir, hit.normal);
        if d > 0 {
            Some((self.albedo, Ray { origin: hit.p, direction: dir }))
        } else {
            proof {
                if self.fuzz == 0 {
                    lemma_fuzz_zero(s);
                    assert(dir == mirror3(r.direction, hit.normal));
                }
            }
            None
        }
    }
}

/// With zero roughness the perturbation term vanishes, whatever the ball
/// sample was.
proof fn lemma_fuzz_zero(s: Vec3)
    ensures
        fmul(0, s.x as int) == 0,
        fmul(0, s.y as int) == 0,
        fmul(0, s.z as int) == 0,
{
    assert(0int * s.x == 0) by (nonlinear_arith);
    assert(0int * s.y == 0) by (nonlinear_arith);
    assert(0int * s.z == 0) by (nonlinear_arith);
    assert(tdiv(0, SCALE as int) == 0) by {
        vstd::arithmetic::div_mod::lemma_div_of0(SCALE as int);
    }
}

/// The mirror direction of a metal bounce stays well within the direction
/// range, fuzz included.
proof fn lemma_metal_fits(v: Vec3, n: Vec3)
    requires
        bounded(n, NORM_MAX as int),
        sq3(v) > 0,
    ensures
        bounded(mirror3(v, n), 0x80_0000),
        mirror3(v, n).x == unit_vec3(v).x - fmul(2 * dot3(unit_vec3(v), n), n.x as int),
        mirror3(v, n).y == unit_vec3(v).y - fmul(2 * dot3(unit_vec3(v), n), n.y as int),
        mirror3(v, n).z == unit_vec3(v).z - fmul(2 * dot3(unit_vec3(v), n), n.z as int),
{
    let u = unit_vec3(v);
    lemma_unit_vec3_bounded(v);
    lemma_dot3_tight(u, n);
    let d2 = 2 * dot3(u, n);
    lemma_fmul_range(d2, n.x as int, 24 * SCALE, NORM_MAX as int, 0x60_0000);
    lemma_fmul_range(d2, n.y as int, 24 * SCALE, NORM_MAX as int, 0x60_0000);
    lemma_fmul_range(d2, n.z as int, 24 * SCALE, NORM_MAX as int, 0x60_0000);
    assert((24 * SCALE) * (NORM_MAX as int) == 0x60_0000 * (SCALE as int)) by (nonlinear_arith);
}

/// The dot product of a unit-bounded vector with a normal is within twelve
/// units.
proof fn lemma_dot3_tight(u: Vec3, n: Vec3)
    requires
        bounded(u, SCALE as int),
        bounded(n, NORM_MAX as int),
    ensures
        in_range(dot3(u, n), 12 * SCALE),
{
    lemma_mul_in_range(u.x as int, n.x as int, SCALE as int, NORM_MAX as int);
    lemma_mul_in_range(u.y as int, n.y as int, SCALE as int, NORM_MAX as int);
    lemma_mul_in_range(u.z as int, n.z as int, SCALE as int, NORM_MAX as int);
    assert(3 * (SCALE as int * NORM_MAX) == (12 * SCALE) * SCALE) by (nonlinear_arith);
    lemma_tdiv_bound(
        u.x as int * n.x + u.y as int * n.y + u.z as int * n.z,
        SCALE as int,
        12 * SCALE,
    );
}

/// The dot product of any vector with a normal is within twelve times the
/// vector's length.
proof fn lemma_dir_dot_bound(v: Vec3, n: Vec3)
    requires
        bounded(n, NORM_MAX as int),
    ensures
        in_range(dot3(v, n), 12 * len3(v)),
        len3(v) >= 0,
        sq3(v) > 0 ==> len3(v) >= 1,
{
    lemma_len_dominates(v);
    let l = len3(v);
    lemma_mul_in_range(v.x as int, n.x as int, l, NORM_MAX as int);
    lemma_mul_in_range(v.y as int, n.y as int, l, NORM_MAX as int);
    lemma_mul_in_range(v.z as int, n.z as int, l, NORM_MAX as int);
    assert(3 * (l * NORM_MAX) == (12 * l) * SCALE) by (nonlinear_arith);
    lemma_tdiv_bound(
        v.x as int * n.x + v.y as int * n.y + v.z as int * n.z,
        SCALE as int,
        12 * l,
    );
}

/// The reflectance base at head-on incidence: `((1 - n) / (1 + n))` squared.
pub open spec fn r0_of(ri: int) -> int {
    let t = tdiv((SCALE - ri) * SCALE, SCALE + ri);
    fmul(t, t)
}

/// The fixed-point fifth power.
pub open spec fn pow5(x: int) -> int {
    let x2 = fmul(x, x);
    let x4 = fmul(x2, x2);
    fmul(x4, x)
}

/// Schlick's reflectance approximation `r0 + (1 - r0) * (1 - cosine)^5`.
pub open spec fn schlick3(cosine: int, ri: int) -> int {
    r0_of(ri) + fmul(SCALE - r0_of(ri), pow5(SCALE - cosine))
}

/// The reflectance base lies within `[0, 1]`.
pub proof fn lemma_r0_range(ri: int)
    requires
        0 < ri,
    ensures
        0 <= r0_of(ri) <= SCALE,
{
    let t = tdiv((SCALE - ri) * SCALE, SCALE + ri);
    assert(in_range((SCALE - ri) * SCALE, SCALE as int * (SCALE + ri))) by (nonlinear_arith)
        requires
            0 < ri,
    ;
    lemma_tdiv_bound((SCALE - ri) * SCALE, SCALE + ri, SCALE as int);
    lemma_mul_in_range(t, t, SCALE as int, SCALE as int);
    assert(t * t >= 0) by (nonlinear_arith);
    lemma_tdiv_bound(t * t, SCALE as int, SCALE as int);
    assert(SCALE as int * SCALE == SCALE as int * SCALE) by (nonlinear_arith);
    vstd::arithmetic::div_mod::lemma_div_pos_is_pos(t * t, SCALE as int);
}

/// Schlick's reflectance approximation, made executable.
pub fn schlick(cosine: i64, ref_idx: i64) -> (r: i64)
    requires
        0 < ref_idx <= RI_MAX,
        in_range(cosine as int, 0x100_0000),
    ensures
        r == schlick3(cosine as int, ref_idx as int),
{
    proof {
        lemma_schlick_fits(cosine as int, ref_idx as int);
    }
    let t = mul_div(SCALE - ref_idx, SCALE, SCALE + ref_idx);
    let r0 = fixed_mul(t, t);
    let x = SCALE - cosine;
    let x2 = fixed_mul(x, x);
    let x4 = fixed_mul(x2, x2);
    let x5 = fixed_mul(x4, x);
    r0 + fixed_mul(SCALE - r0, x5)
}

/// Every intermediate of the Schlick formula fits the machine word.
proof fn lemma_schlick_fits(cosine: int, ri: int)
    requires
        0 < ri <= RI_MAX,
        in_range(cosine, 0x100_0000),
    ensures
        in_range(tdiv((SCALE - ri) * SCALE, SCALE + ri), SCALE as int),
        0 <= r0_of(ri) <= SCALE,
        in_range(fmul(SCALE as int - cosine, SCALE as int - cosine), 0x4_0000_0000),
        in_range(
            fmul(
                fmul(SCALE as int - cosine, SCALE as int - cosine),
                fmul(SCALE as int - cosine, SCALE as int - cosine),
            ),
            0x10_0000_0000_0000,
        ),
        in_range(pow5(SCALE as int - cosine), 0x2000_0000_0000_0000),
        in_range(
            fmul(SCALE as int - r0_of(ri), pow5(SCALE as int - cosine)),
            0x2000_0000_0000_0000,
        ),
        in_range((SCALE - ri) * SCALE, i64::MAX * SCALE),
        in_range(r0_of(ri) + fmul(SCALE as int - r0_of(ri), pow5(SCALE as int - cosine)),
            i64::MAX as int),
{
    lemma_r0_range(ri);
    let t = tdiv((SCALE - ri) * SCALE, SCALE + ri);
    assert(in_range((SCALE - ri) * SCALE, SCALE as int * (SCALE + ri))) by (nonlinear_arith)
        requires
            0 < ri,
    ;
    lemma_tdiv_bound((SCALE - ri) * SCALE, SCALE + ri, SCALE as int);
    assert(SCALE as int * (SCALE + ri) <= i64::MAX * SCALE) by (nonlinear_arith)
        requires
            0 < ri <= RI_MAX,
    ;
    let x = SCALE as int - cosine;
    lemma_fmul_range(x, x, 0x200_0000, 0x200_0000, 0x4_0000_0000);
    assert(0x200_0000 * 0x200_0000int == 0x4_0000_0000 * (SCALE as int)) by (nonlinear_arith);
    let x2 = fmul(x, x);
    lemma_fmul_range(x2, x2, 0x4_0000_0000, 0x4_0000_0000, 0x10_0000_0000_0000);
    assert(0x4_0000_0000 * 0x4_0000_0000int == 0x10_0000_0000_0000 * (SCALE as int))
        by (nonlinear_arith);
    let x4 = fmul(x2, x2);
    lemma_fmul_range(x4, x, 0x10_0000_0000_0000, 0x200_0000, 0x2000_0000_0000_0000);
    assert(0x10_0000_0000_0000 * 0x200_0000int <= 0x2000_0000_0000_0000 * (SCALE as int))
        by (nonlinear_arith);
    let x5 = pow5(x);
    lemma_fmul_range(SCALE as int - r0_of(ri), x5, SCALE as int, 0x2000_0000_0000_0000,
        0x2000_0000_0000_0000);
    assert(SCALE as int * 0x2000_0000_0000_0000 <= 0x2000_0000_0000_0000 * (SCALE as int))
        by (nonlinear_arith);
}

/// At head-on incidence the reflectance is exactly the base `r0`.
pub proof fn lemma_schlick_head_on(ri: int)
    ensures
        schlick3(SCALE as int, ri) == r0_of(ri),
{
    assert(tdiv(0, SCALE as int) == 0) by {
        vstd::arithmetic::div_mod::lemma_div_of0(SCALE as int);
    }
    assert(0int * 0 == 0) by (nonlinear_arith);
    assert(fmul(0, 0) == 0);
    let x4 = fmul(0, 0);
    assert(x4 * 0 == 0) by (nonlinear_arith);
    assert(pow5(0) == 0);
    assert((SCALE as int - r0_of(ri)) * 0 == 0) by (nonlinear_arith);
    assert(fmul(SCALE as int - r0_of(ri), 0) == 0);
}

/// At grazing incidence the reflectance is exactly one.
pub proof fn lemma_schlick_grazing(ri: int)
    requires
        0 < ri,
    ensures
        schlick3(0, ri) == SCALE,
{
    lemma_r0_range(ri);
    lemma_unit_cancel(SCALE as int);
    assert(pow5(SCALE as int) == SCALE) by {
        assert(fmul(SCALE as int, SCALE as int) == SCALE) by {
            lemma_unit_cancel(SCALE as int);
        }
    }
    lemma_unit_cancel(SCALE as int - r0_of(ri));
    assert(fmul(SCALE as int - r0_of(ri), SCALE as int) == SCALE as int - r0_of(ri));
}

/// The refraction discriminant `1 - ni^2 * (1 - cos_i^2)` over the unit
/// incoming direction `uv` and the outward normal `n`.
pub open spec fn refr_disc(uv: Vec3, n: Vec3, ni: int) -> int {
    let ci = -dot3(uv, n);
    SCALE - fmul(fmul(ni, ni), SCALE as int - fmul(ci, ci))
}

/// The refracted direction `ni * (uv + cos_i * n) - sqrt(disc) * n`,
/// componentwise.
pub open spec fn refract_dir(uv: Vec3, n: Vec3, ni: int) -> Vec3 {
    let ci = -dot3(uv, n);
    let root = sqrt_floor(refr_disc(uv, n, ni) * SCALE);
    Vec3 {
        x: (fmul(ni, uv.x + fmul(ci, n.x as int)) - fmul(root, n.x as int)) as i64,
        y: (fmul(ni, uv.y + fmul(ci, n.y as int)) - fmul(root, n.y as int)) as i64,
        z: (fmul(ni, uv.z + fmul(ci, n.z as int)) - fmul(root, n.z as int)) as i64,
    }
}

/// Snell refraction attempt: the refracted direction where the discriminant
/// is positive, and nothing where total internal reflection rules it out.
pub fn refract(v: &Vec3, n: &Vec3, ni_over_nt: i64) -> (res: Option<Vec3>)
    requires
        bounded(*v, DIR_MAX as int),
        sq3(*v) > 0,
        bounded(*n, NORM_MAX as int),
        0 <= ni_over_nt <= NI_LIM,
    ensures
        refr_disc(unit_vec3(*v), *n, ni_over_nt as int) > 0 ==> res == Some(
            refract_dir(unit_vec3(*v), *n, ni_over_nt as int),
        ),
        refr_disc(unit_vec3(*v), *n, ni_over_nt as int) <= 0 ==> res is None,
{
    let uv = v.unit_vector();
    let dt = Vec3::dot(uv, *n);
    proof {
        lemma_refract_fits(unit_vec3(*v), *n, ni_over_nt as int);
    }
    let ci = -dt;
    let inner = SCALE - fixed_mul(ci, ci);
    let nn = fixed_mul(ni_over_nt, ni_over_nt);
    let disc = SCALE - fixed_mul(nn, inner);
    if disc > 0 {
        let root = fixed_sqrt(disc);
        proof {
            lemma_sqrt_le(disc as int * SCALE, 0x20_0000_0000);
            assert(0x20_0000_0000 * 0x20_0000_0000int >= (0x200_0000_0000_0000
                + SCALE as int) * SCALE) by (nonlinear_arith);
            lemma_fmul_range(root as int, n.x as int, 0x20_0000_0000, NORM_MAX as int,
                0x80_0000_0000);
            lemma_fmul_range(root as int, n.y as int, 0x20_0000_0000, NORM_MAX as int,
                0x80_0000_0000);
            lemma_fmul_range(root as int, n.z as int, 0x20_0000_0000, NORM_MAX as int,
                0x80_0000_0000);
            assert(0x20_0000_0000 * (NORM_MAX as int) == 0x80_0000_0000 * (SCALE as int))
                by (nonlinear_arith);
        }
        Some(
            Vec3 {
                x: fixed_mul(ni_over_nt, uv.x + fixed_mul(ci, n.x)) - fixed_mul(root, n.x),
                y: fixed_mul(ni_over_nt, uv.y + fixed_mul(ci, n.y)) - fixed_mul(root, n.y),
                z: fixed_mul(ni_over_nt, uv.z + fixed_mul(ci, n.z)) - fixed_mul(root, n.z),
            },
        )
    } else {
        None
    }
}

/// Every intermediate of the refraction formula fits the machine word.
proof fn lemma_refract_fits(uv: Vec3, n: Vec3, ni: int)
    requires
        bounded(uv, SCALE as int),
        bounded(n, NORM_MAX as int),
        0 <= ni <= NI_LIM,
    ensures
        in_range(dot3(uv, n), 12 * SCALE),
        in_range(fmul(-dot3(uv, n), -dot3(uv, n)), 0x100_0000),
        in_range(fmul(ni, ni), 0x1_0000_0000_0000),
        in_range(
            fmul(fmul(ni, ni), SCALE as int - fmul(-dot3(uv, n), -dot3(uv, n))),
            0x200_0000_0000_0000,
        ),
        in_range(fmul(-dot3(uv, n), n.x as int), 0x40_0000),
        in_range(fmul(-dot3(uv, n), n.y as int), 0x40_0000),
        in_range(fmul(-dot3(uv, n), n.z as int), 0x40_0000),
        in_range(fmul(ni, uv.x + fmul(-dot3(uv, n), n.x as int)), 0x80_0000_0000),
        in_range(fmul(ni, uv.y + fmul(-dot3(uv, n), n.y as int)), 0x80_0000_0000),
        in_range(fmul(ni, uv.z + fmul(-dot3(uv, n), n.z as int)), 0x80_0000_0000),
{
    lemma_dot3_tight(uv, n);
    let ci = -dot3(uv, n);
    lemma_fmul_range(ci, ci, 12 * SCALE, 12 * SCALE, 0x100_0000);
    assert((12 * SCALE) * (12 * SCALE as int) <= 0x100_0000 * (SCALE as int))
        by (nonlinear_arith);
    lemma_fmul_range(ni, ni, NI_LIM as int, NI_LIM as int, 0x1_0000_0000_0000);
    assert(NI_LIM as int * NI_LIM == 0x1_0000_0000_0000 * (SCALE as int)) by (nonlinear_arith);
    lemma_fmul_range(fmul(ni, ni), SCALE as int - fmul(ci, ci), 0x1_0000_0000_0000, 0x200_0000,
        0x200_0000_0000_0000);
    assert(0x1_0000_0000_0000 * 0x200_0000int <= 0x200_0000_0000_0000 * (SCALE as int))
        by (nonlinear_arith);
    lemma_fmul_range(ci, n.x as int, 12 * SCALE, NORM_MAX as int, 0x40_0000);
    lemma_fmul_range(ci, n.y as int, 12 * SCALE, NORM_MAX as int, 0x40_0000);
    lemma_fmul_range(ci, n.z as int, 12 * SCALE, NORM_MAX as int, 0x40_0000);
    assert((12 * SCALE) * (NORM_MAX as int) <= 0x40_0000 * (SCALE as int)) by (nonlinear_arith);
    lemma_fmul_range(ni, uv.x + fmul(ci, n.x as int), NI_LIM as int, 0x41_0000, 0x80_0000_0000);
    lemma_fmul_range(ni, uv.y + fmul(ci, n.y as int), NI_LIM as int, 0x41_0000, 0x80_0000_0000);
    lemma_fmul_range(ni, uv.z + fmul(ci, n.z as int), NI_LIM as int, 0x41_0000, 0x80_0000_0000);
    assert(NI_LIM as int * 0x41_0000 <= 0x80_0000_0000 * (SCALE as int)) by (nonlinear_arith);
}

/// The normal flipped to face the incoming side.
pub open spec fn flip3(n: Vec3) -> Vec3 {
    Vec3 { x: (-n.x) as i64, y: (-n.y) as i64, z: (-n.z) as i64 }
}

/// The direction a dielectric bounce takes for the uniform draw `u`: the
/// refracted direction when refraction is possible and the draw exceeds the
/// Schlick reflectance, the mirror reflection otherwise.
pub open spec fn dielectric_dir(d: Dielectric, r: Ray, hit: HitRecord, u: int) -> Vec3 {
    let dt = dot3(r.direction, hit.normal);
    let outward = if dt > 0 {
        flip3(hit.normal)
    } else {
        hit.normal
    };
    let ni = if dt > 0 {
        d.ref_idx as int
    } else {
        tdiv(SCALE as int * SCALE, d.ref_idx as int)
    };
    let cosine = if dt > 0 {
        tdiv(d.ref_idx * dt, len3(r.direction))
    } else {
        tdiv(-dt * SCALE, len3(r.direction))
    };
    let uv = unit_vec3(r.direction);
    if refr_disc(uv, outward, ni) > 0 && schlick3(cosine, d.ref_idx as int) < SCALE && u
        > schlick3(cosine, d.ref_idx as int) {
        refract_dir(uv, outward, ni)
    } else {
        reflect_vec(r.direction, hit.normal)
    }
}

impl Dielectric {
    pub fn new(ref_idx: i64) -> (r: Dielectric)
        requires
            0 < ref_idx <= RI_MAX,
        ensures
            r.ref_idx == ref_idx,
    {
        Dielectric { ref_idx }
    }

    /// Refractive bounce: pick the outward normal and the index ratio from
    /// the side the ray comes from, attempt Snell refraction, and choose
    /// between reflection and refraction by Schlick's reflectance. The
    /// attenuation is always white, and the surface always scatters; when
    /// total internal reflection rules refraction out, the ray reflects.
    pub fn scatter(&self, r: &Ray, hit: &HitRecord) -> (res: (Vec3, Ray))
        requires
            0 < self.ref_idx <= RI_MAX,
            hit.wf(),
            bounded(r.direction, DIR_MAX as int),
            sq3(r.direction) > 0,
        ensures
            res.0 == (Vec3 { x: SCALE, y: SCALE, z: SCALE }),
            res.1.origin == hit.p,
            ({
                let dt = dot3(r.direction, hit.normal);
                let outward = if dt > 0 {
                    flip3(hit.normal)
                } else {
                    hit.normal
                };
                let ni = if dt > 0 {
                    self.ref_idx as int
                } else {
                    tdiv(SCALE as int * SCALE, self.ref_idx as int)
                };
                let uv = unit_vec3(r.direction);
                &&& (res.1.direction == reflect_vec(r.direction, hit.normal) || (refr_disc(
                    uv,
                    outward,
                    ni,
                ) > 0 && res.1.direction == refract_dir(uv, outward, ni)))
                &&& refr_disc(uv, outward, ni) <= 0 ==> res.1.direction == reflect_vec(
                    r.direction,
                    hit.normal,
                )
            }),
            exists|u: int|
                0 <= u < SCALE && res.1.direction == #[trigger] dielectric_dir(
                    *self,
                    *r,
                    *hit,
                    u,
                ),
    {
        let dt = Vec3::dot(r.direction, hit.normal);
        let dir_len = r.direction.length();
        proof {
            lemma_dir_dot_bound(r.direction, hit.normal);
            lemma_cosine_fits(dot3(r.direction, hit.normal), len3(r.direction),
                self.ref_idx as int);
        }
        let (outward, ni_over_nt, cosine) = if dt > 0 {
            (hit.normal.neg(), self.ref_idx, mul_div(self.ref_idx, dt, dir_len))
        } else {
            (hit.normal, mul_div(SCALE, SCALE, self.ref_idx), mul_div(-dt, SCALE, dir_len))
        };
        let refracted = refract(&r.direction, &outward, ni_over_nt);
        let reflect_prob = match refracted {
            Some(_) => schlick(cosine, self.ref_idx),
            None => SCALE,
        };
        let white = Vec3 { x: SCALE, y: SCALE, z: SCALE };
        let u = if reflect_prob < SCALE {
            random_unit_scalar()
        } else {
            0
        };
        if reflect_prob < SCALE && u > reflect_prob {
            match refracted {
                Some(refr) => {
                    proof {
                        assert(refr == dielectric_dir(*self, *r, *hit, u as int));
                    }
                    return (white, Ray { origin: hit.p, direction: refr });
                },
                None => {},
            }
        }
        let reflected = reflect(&r.direction, &hit.normal);
        proof {
            assert(reflected == dielectric_dir(*self, *r, *hit, u as int));
        }
        (white, Ray { origin: hit.p, direction: reflected })
    }
}

/// The cosine term handed to Schlick stays within its range: the dot product
/// is dominated by the direction's length.
proof fn lemma_cosine_fits(dt: int, l: int, ri: int)
    requires
        in_range(dt, 12 * l),
        l >= 1,
        0 < ri <= RI_MAX,
    ensures
        in_range(tdiv(ri * dt, l), 0x100_0000),
        in_range(tdiv(-dt * SCALE, l), 0x100_0000),
        in_range(tdiv(SCALE as int * SCALE, ri), NI_LIM as int),
        tdiv(SCALE as int * SCALE, ri) >= 0,
    {
        lemma_mul_in_range(ri, dt, RI_MAX as int, 12 * l);
        assert(RI_MAX as int * (12 * l) <= 0x100_0000 * l) by (nonlinear_arith)
            requires
                l >= 1,
        ;
        lemma_tdiv_bound(ri * dt, l, 0x100_0000);
        lemma_mul_in_range(-dt, SCALE as int, 12 * l, SCALE as int);
        assert((12 * l) * (SCALE as int) <= 0x100_0000 * l) by (nonlinear_arith)
            requires
                l >= 1,
        ;
        lemma_tdiv_bound(-dt * SCALE, l, 0x100_0000);
        assert(in_range(SCALE as int * SCALE, NI_LIM as int * ri)) by (nonlinear_arith)
            requires
                0 < ri,
        ;
        lemma_tdiv_bound(SCALE as int * SCALE, ri, NI_LIM as int);
        vstd::arithmetic::div_mod::lemma_div_pos_is_pos(SCALE as int * SCALE, ri);
    }

} // verus!
