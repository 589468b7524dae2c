use vstd::prelude::*;
use crate::{SCALE, VMAX, COORD_MAX, tdiv, fmul};
use crate::math::{in_range, lemma_fmul_range, lemma_tdiv_bound, lemma_tdiv_shrinks};
use crate::vec3::{
    Vec3, bounded, sq3, cross3, unit_vec3, lemma_unit_vec3_bounded,
};
use crate::ray::Ray;
use crate::sample::{in_unit_disk, random_in_unit_disk};

verus! {

/// Largest magnitude the viewport tangent and the aspect ratio accept
/// (16 units: fields of view up to nearly the half space).
pub const TAN_MAX: i64 = 0x10_0000;

/// The camera: an immutable configuration derived once from the viewing
/// parameters, mapping image-plane coordinates to outgoing rays.
#[derive(Clone, Copy, Debug, PartialEq, Eq, Structural)]
pub struct Camera {
    pub origin: Vec3,
    pub lower_left_corner: Vec3,
    pub horizontal: Vec3,
    pub vertical: Vec3,
    pub u: Vec3,
    pub v: Vec3,
    pub w: Vec3,
    pub lens_radius: i64,
}

/// The viewing basis vector `w`: from the target toward the eye.
pub open spec fn cam_w(lookfrom: Vec3, lookat: Vec3) -> Vec3 {
    unit_vec3(crate::vec3::sub3(lookfrom, lookat))
}

/// The ray of the camera through image-plane coordinates `(s, t)`, with the
/// lens sample `p` offsetting the origin for depth of field.
pub open spec fn ray_through(cam: Camera, s: int, t: int, p: Vec3) -> Ray {
    let rdx = fmul(cam.lens_radius as int, p.x as int);
    let rdy = fmul(cam.lens_radius as int, p.y as int);
    let offx = fmul(rdx, cam.u.x as int) + fmul(rdy, cam.v.x as int);
    let offy = fmul(rdx, cam.u.y as int) + fmul(rdy, cam.v.y as int);
    let offz = fmul(rdx, cam.u.z as int) + fmul(rdy, cam.v.z as int);
    Ray {
        origin: Vec3 {
            x: (cam.origin.x + offx) as i64,
            y: (cam.origin.y + offy) as i64,
            z: (cam.origin.z + offz) as i64,
        },
        direction: Vec3 {
            x: (cam.lower_left_corner.x + fmul(s, cam.horizontal.x as int) + fmul(
                t,
                cam.vertical.x as int,
            ) - cam.origin.x - offx) as i64,
            y: (cam.lower_left_corner.y + fmul(s, cam.horizontal.y as int) + fmul(
                t,
                cam.vertical.y as int,
            ) - cam.origin.y - offy) as i64,
            z: (cam.lower_left_corner.z + fmul(s, cam.horizontal.z as int) + fmul(
                t,
                cam.vertical.z as int,
            ) - cam.origin.z - offz) as i64,
        },
    }
}

impl Camera {
    /// A camera whose fields stay within the ranges `get_ray` computes in.
    pub open spec fn wf(self) -> bool {
        &&& bounded(self.origin, COORD_MAX as int)
        &&& bounded(self.lower_left_corner, VMAX as int)
        &&& bounded(self.horizontal, VMAX as int)
        &&& bounded(self.vertical, VMAX as int)
        &&& bounded(self.u, 2 * SCALE as int)
        &&& bounded(self.v, 2 * SCALE as int)
        &&& bounded(self.w, 2 * SCALE as int)
        &&& 0 <= self.lens_radius <= COORD_MAX
    }

    /// Build the viewing basis from eye, target and up direction, and derive
    /// the image-plane corner and spans from the viewport tangent, the
    /// aspect ratio, the aperture and the focus distance. `half_tan` is the
    /// tangent of half the vertical field of view, in fixed-point units.
    pub fn new(
        lookfrom: Vec3,
        lookat: Vec3,
        vup: Vec3,
        half_tan: i64,
        aspect: i64,
        aperture: i64,
        focus_dist: i64,
    ) -> (cam: Camera)
        requires
            bounded(lookfrom, COORD_MAX as int),
            bounded(lookat, COORD_MAX as int),
            bounded(vup, COORD_MAX as int),
            0 < half_tan <= TAN_MAX,
            0 < aspect <= TAN_MAX,
            0 <= aperture <= COORD_MAX,
            0 < focus_dist <= COORD_MAX,
            sq3(crate::vec3::sub3(lookfrom, lookat)) > 0,
            sq3(cross3(vup, cam_w(lookfrom, lookat))) > 0,
        ensures
            cam.wf(),
            cam.origin == lookfrom,
            cam.w == cam_w(lookfrom, lookat),
            cam.u == unit_vec3(cross3(vup, cam_w(lookfrom, lookat))),
            cam.v == cross3(cam.w, cam.u),
            cam.lens_radius == tdiv(aperture as int, 2),
            ({
                let half_width = fmul(aspect as int, half_tan as int);
                let tx = fmul(half_width, cam.u.x as int) + fmul(half_tan as int, cam.v.x as int)
                    + cam.w.x;
                let ty = fmul(half_width, cam.u.y as int) + fmul(half_tan as int, cam.v.y as int)
                    + cam.w.y;
                let tz = fmul(half_width, cam.u.z as int) + fmul(half_tan as int, cam.v.z as int)
                    + cam.w.z;
                &&& cam.lower_left_corner.x == lookfrom.x - fmul(focus_dist as int, tx)
                &&& cam.lower_left_corner.y == lookfrom.y - fmul(focus_dist as int, ty)
                &&& cam.lower_left_corner.z == lookfrom.z - fmul(focus_dist as int, tz)
                &&& cam.horizontal.x == fmul(
                    fmul(2 * half_width, focus_dist as int),
                    cam.u.x as int,
                )
                &&& cam.horizontal.y == fmul(
                    fmul(2 * half_width, focus_dist as int),
                    cam.u.y as int,
                )
                &&& cam.horizontal.z == fmul(
                    fmul(2 * half_width, focus_dist as int),
                    cam.u.z as int,
                )
                &&& cam.vertical.x == fmul(
                    fmul(2 * half_tan as int, focus_dist as int),
                    cam.v.x as int,
                )
                &&& cam.vertical.y == fmul(
                    fmul(2 * half_tan as int, focus_dist as int),
                    cam.v.y as int,
                )
                &&& cam.vertical.z == fmul(
                    fmul(2 * half_tan as int, focus_dist as int),
                    cam.v.z as int,
                )
            }),
    {
        let w = lookfrom.sub(lookat).unit_vector();
        proof {
            lemma_unit_vec3_bounded(crate::vec3::sub3(lookfrom, lookat));
            lemma_cross3_bound(vup, w, COORD_MAX as int, SCALE as int, 0x800_0000);
            assert(2 * (COORD_MAX as int * SCALE) == 0x800_0000 * (SCALE as int))
                by (nonlinear_arith);
        }
        let cu = Vec3::cross(vup, w);
        proof {
            lemma_unit_vec3_bounded(cross3(vup, cam_w(lookfrom, lookat)));
        }
        let u = cu.unit_vector();
        proof {
            lemma_cross3_bound(w, u, SCALE as int, SCALE as int, 2 * SCALE as int);
            assert(2 * (SCALE as int * SCALE) == (2 * SCALE as int) * SCALE)
                by (nonlinear_arith);
        }
        let v = Vec3::cross(w, u);
        proof {
            lemma_camera_fits(half_tan as int, aspect as int, focus_dist as int, u, v, w);
        }
        let half_width = crate::math::fixed_mul(aspect, half_tan);
        let tx = crate::math::fixed_mul(half_width, u.x) + crate::math::fixed_mul(half_tan, v.x)
            + w.x;
        let ty = crate::math::fixed_mul(half_width, u.y) + crate::math::fixed_mul(half_tan, v.y)
            + w.y;
        let tz = crate::math::fixed_mul(half_width, u.z) + crate::math::fixed_mul(half_tan, v.z)
            + w.z;
        let lower_left_corner = Vec3 {
            x: lookfrom.x - crate::math::fixed_mul(focus_dist, tx),
            y: lookfrom.y - crate::math::fixed_mul(focus_dist, ty),
            z: lookfrom.z - crate::math::fixed_mul(focus_dist, tz),
        };
        let kh = crate::math::fixed_mul(2 * half_width, focus_dist);
        let kv = crate::math::fixed_mul(2 * half_tan, focus_dist);
        let horizontal = Vec3 {
            x: crate::math::fixed_mul(kh, u.x),
            y: crate::math::fixed_mul(kh, u.y),
            z: crate::math::fixed_mul(kh, u.z),
        };
        let vertical = Vec3 {
            x: crate::math::fixed_mul(kv, v.x),
            y: crate::math::fixed_mul(kv, v.y),
            z: crate::math::fixed_mul(kv, v.z),
        };
        proof {
            lemma_tdiv_shrinks(aperture as int, 2);
        }
        Camera {
            origin: lookfrom,
            lower_left_corner,
            horizontal,
            vertical,
            u,
            v,
            w,
            lens_radius: aperture / 2,
        }
    }

    /// The simple axis-aligned camera: the eye at the origin looking down
    /// the negative `z` axis at a plane of the given width and height at the
    /// given distance, with no lens.
    pub fn axis_aligned(width: i64, height: i64, distance: i64) -> (cam: Camera)
        requires
            0 < width <= COORD_MAX,
            0 < height <= COORD_MAX,
            0 < distance <= COORD_MAX,
        ensures
            cam.wf(),
            cam.origin == (Vec3 { x: 0i64, y: 0i64, z: 0i64 }),
            cam.lower_left_corner.x == -tdiv(width as int, 2),
            cam.lower_left_corner.y == -tdiv(height as int, 2),
            cam.lower_left_corner.z == -distance,
            cam.horizontal == (Vec3 { x: width, y: 0i64, z: 0i64 }),
            cam.vertical == (Vec3 { x: 0i64, y: height, z: 0i64 }),
            cam.lens_radius == 0,
    {
        Camera {
            origin: Vec3 { x: 0, y: 0, z: 0 },
            lower_left_corner: Vec3 { x: -(width / 2), y: -(height / 2), z: -distance },
            horizontal: Vec3 { x: width, y: 0, z: 0 },
            vertical: Vec3 { x: 0, y: height, z: 0 },
            u: Vec3 { x: SCALE, y: 0, z: 0 },
            v: Vec3 { x: 0, y: SCALE, z: 0 },
            w: Vec3 { x: 0, y: 0, z: SCALE },
            lens_radius: 0,
        }
    }

    /// The ray through image-plane coordinates `(s, t)` in `[0, 1]` units,
    /// its origin jittered over the lens disk for depth of field. With no
    /// aperture the lens offset vanishes and the ray is exact.
    pub fn get_ray(&self, s: i64, t: i64) -> (res: Ray)
        requires
            self.wf(),
            0 <= s <= SCALE,
            0 <= t <= SCALE,
        ensures
            exists|p: Vec3| #[trigger] in_unit_disk(p) && res == ray_through(*self, s as int, t as int, p),
            self.lens_radius == 0 ==> res == ray_through(
                *self,
                s as int,
                t as int,
                Vec3 { x: 0i64, y: 0i64, z: 0i64 },
            ),
    {
        let p = random_in_unit_disk();
        proof {
            lemma_get_ray_fits(*self, s as int, t as int, p);
        }
        let rdx = crate::math::fixed_mul(self.lens_radius, p.x);
        let rdy = crate::math::fixed_mul(self.lens_radius, p.y);
        let offx = crate::math::fixed_mul(rdx, self.u.x) + crate::math::fixed_mul(rdy, self.v.x);
        let offy = crate::math::fixed_mul(rdx, self.u.y) + crate::math::fixed_mul(rdy, self.v.y);
        let offz = crate::math::fixed_mul(rdx, self.u.z) + crate::math::fixed_mul(rdy, self.v.z);
        let res = Ray {
            origin: Vec3 {
                x: self.origin.x + offx,
                y: self.origin.y + offy,
                z: self.origin.z + offz,
            },
            direction: Vec3 {
                x: self.lower_left_corner.x + crate::math::fixed_mul(s, self.horizontal.x)
                    + crate::math::fixed_mul(t, self.vertical.x) - self.origin.x - offx,
                y: self.lower_left_corner.y + crate::math::fixed_mul(s, self.horizontal.y)
                    + crate::math::fixed_mul(t, self.vertical.y) - self.origin.y - offy,
                z: self.lower_left_corner.z + crate::math::fixed_mul(s, self.horizontal.z)
                    + crate::math::fixed_mul(t, self.vertical.z) - self.origin.z - offz,
            },
        };
        proof {
            assert(res == ray_through(*self, s as int, t as int, p));
            if self.lens_radius == 0 {
                lemma_lens_closed(*self, s as int, t as int, p);
            }
        }
        res
    }
}

/// A range on the cross product from ranges on the factors.
proof fn lemma_cross3_bound(a: Vec3, b: Vec3, aa: int, bb: int, c: int)
    requires
        bounded(a, aa),
        bounded(b, bb),
        0 <= aa,
        0 <= bb,
        2 * (aa * bb) <= c * SCALE,
        0 <= c <= i64::MAX,
    ensures
        bounded(cross3(a, b), c),
{
    crate::math::lemma_mul_in_range(a.y as int, b.z as int, aa, bb);
    crate::math::lemma_mul_in_range(a.z as int, b.y as int, aa, bb);
    crate::math::lemma_mul_in_range(a.z as int, b.x as int, aa, bb);
    crate::math::lemma_mul_in_range(a.x as int, b.z as int, aa, bb);
    crate::math::lemma_mul_in_range(a.x as int, b.y as int, aa, bb);
    crate::math::lemma_mul_in_range(a.y as int, b.x as int, aa, bb);
    lemma_tdiv_bound(a.y * b.z - a.z * b.y, SCALE as int, c);
    lemma_tdiv_bound(a.z * b.x - a.x * b.z, SCALE as int, c);
    lemma_tdiv_bound(a.x * b.y - a.y * b.x, SCALE as int, c);
}

/// Every intermediate of the camera construction fits the machine word and
/// the resulting fields stay within the camera's ranges.
proof fn lemma_camera_fits(half_tan: int, aspect: int, focus_dist: int, u: Vec3, v: Vec3, w: Vec3)
    requires
        0 < half_tan <= TAN_MAX,
        0 < aspect <= TAN_MAX,
        0 < focus_dist <= COORD_MAX,
        bounded(u, 2 * SCALE as int),
        bounded(v, 2 * SCALE as int),
        bounded(w, 2 * SCALE as int),
    ensures
        in_range(fmul(aspect, half_tan), 0x100_0000),
        in_range(fmul(fmul(aspect, half_tan), u.x as int), 0x200_0000),
        in_range(fmul(fmul(aspect, half_tan), u.y as int), 0x200_0000),
        in_range(fmul(fmul(aspect, half_tan), u.z as int), 0x200_0000),
        in_range(fmul(half_tan, v.x as int), 0x20_0000),
        in_range(fmul(half_tan, v.y as int), 0x20_0000),
        in_range(fmul(half_tan, v.z as int), 0x20_0000),
        in_range(fmul(focus_dist, fmul(fmul(aspect, half_tan), u.x as int) + fmul(
            half_tan,
            v.x as int,
        ) + w.x), 0x9_0000_0000),
        in_range(fmul(focus_dist, fmul(fmul(aspect, half_tan), u.y as int) + fmul(
            half_tan,
            v.y as int,
        ) + w.y), 0x9_0000_0000),
        in_range(fmul(focus_dist, fmul(fmul(aspect, half_tan), u.z as int) + fmul(
            half_tan,
            v.z as int,
        ) + w.z), 0x9_0000_0000),
        in_range(fmul(2 * fmul(aspect, half_tan), focus_dist), 0x8_0000_0000),
        in_range(fmul(2 * half_tan, focus_dist), 0x8000_0000),
        in_range(fmul(fmul(2 * fmul(aspect, half_tan), focus_dist), u.x as int), VMAX as int),
        in_range(fmul(fmul(2 * fmul(aspect, half_tan), focus_dist), u.y as int), VMAX as int),
        in_range(fmul(fmul(2 * fmul(aspect, half_tan), focus_dist), u.z as int), VMAX as int),
        in_range(fmul(fmul(2 * half_tan, focus_dist), v.x as int), VMAX as int),
        in_range(fmul(fmul(2 * half_tan, focus_dist), v.y as int), VMAX as int),
        in_range(fmul(fmul(2 * half_tan, focus_dist), v.z as int), VMAX as int),
{
    lemma_fmul_range(aspect, half_tan, TAN_MAX as int, TAN_MAX as int, 0x100_0000);
    assert(TAN_MAX as int * TAN_MAX == 0x100_0000 * (SCALE as int)) by (nonlinear_arith);
    let hw = fmul(aspect, half_tan);
    lemma_fmul_range(hw, u.x as int, 0x100_0000, 2 * SCALE as int, 0x200_0000);
    lemma_fmul_range(hw, u.y as int, 0x100_0000, 2 * SCALE as int, 0x200_0000);
    lemma_fmul_range(hw, u.z as int, 0x100_0000, 2 * SCALE as int, 0x200_0000);
    assert(0x100_0000 * (2 * SCALE as int) == 0x200_0000 * (SCALE as int)) by (nonlinear_arith);
    lemma_fmul_range(half_tan, v.x as int, TAN_MAX as int, 2 * SCALE as int, 0x20_0000);
    lemma_fmul_range(half_tan, v.y as int, TAN_MAX as int, 2 * SCALE as int, 0x20_0000);
    lemma_fmul_range(half_tan, v.z as int, TAN_MAX as int, 2 * SCALE as int, 0x20_0000);
    assert(TAN_MAX as int * (2 * SCALE as int) == 0x20_0000 * (SCALE as int)) by (nonlinear_arith);
    let tx = fmul(hw, u.x as int) + fmul(half_tan, v.x as int) + w.x;
    let ty = fmul(hw, u.y as int) + fmul(half_tan, v.y as int) + w.y;
    let tz = fmul(hw, u.z as int) + fmul(half_tan, v.z as int) + w.z;
    lemma_fmul_range(focus_dist, tx, COORD_MAX as int, 0x240_0000, 0x9_0000_0000);
    lemma_fmul_range(focus_dist, ty, COORD_MAX as int, 0x240_0000, 0x9_0000_0000);
    lemma_fmul_range(focus_dist, tz, COORD_MAX as int, 0x240_0000, 0x9_0000_0000);
    assert(COORD_MAX as int * 0x240_0000 == 0x9_0000_0000 * (SCALE as int))
        by (nonlinear_arith);
    lemma_fmul_range(2 * hw, focus_dist, 0x200_0000, COORD_MAX as int, 0x8_0000_0000);
    assert(0x200_0000 * (COORD_MAX as int) == 0x8_0000_0000 * (SCALE as int))
        by (nonlinear_arith);
    lemma_fmul_range(2 * half_tan, focus_dist, 0x20_0000, COORD_MAX as int, 0x8000_0000);
    assert(0x20_0000 * (COORD_MAX as int) == 0x8000_0000 * (SCALE as int))
        by (nonlinear_arith);
    let kh = fmul(2 * hw, focus_dist);
    let kv = fmul(2 * half_tan, focus_dist);
    lemma_fmul_range(kh, u.x as int, 0x8_0000_0000, 2 * SCALE as int, VMAX as int);
    lemma_fmul_range(kh, u.y as int, 0x8_0000_0000, 2 * SCALE as int, VMAX as int);
    lemma_fmul_range(kh, u.z as int, 0x8_0000_0000, 2 * SCALE as int, VMAX as int);
    assert(0x8_0000_0000 * (2 * SCALE as int) <= VMAX as int * SCALE) by (nonlinear_arith);
    lemma_fmul_range(kv, v.x as int, 0x8000_0000, 2 * SCALE as int, VMAX as int);
    lemma_fmul_range(kv, v.y as int, 0x8000_0000, 2 * SCALE as int, VMAX as int);
    lemma_fmul_range(kv, v.z as int, 0x8000_0000, 2 * SCALE as int, VMAX as int);
    assert(0x8000_0000 * (2 * SCALE as int) <= VMAX as int * SCALE) by (nonlinear_arith);
}

/// Every intermediate of `get_ray` fits the machine word.
proof fn lemma_get_ray_fits(cam: Camera, s: int, t: int, p: Vec3)
    requires
        cam.wf(),
        0 <= s <= SCALE,
        0 <= t <= SCALE,
        bounded(p, SCALE as int),
    ensures
        in_range(fmul(cam.lens_radius as int, p.x as int), COORD_MAX as int),
        in_range(fmul(cam.lens_radius as int, p.y as int), COORD_MAX as int),
        in_range(
            fmul(fmul(cam.lens_radius as int, p.x as int), cam.u.x as int),
            2 * COORD_MAX as int,
        ),
        in_range(
            fmul(fmul(cam.lens_radius as int, p.x as int), cam.u.y as int),
            2 * COORD_MAX as int,
        ),
        in_range(
            fmul(fmul(cam.lens_radius as int, p.x as int), cam.u.z as int),
            2 * COORD_MAX as int,
        ),
        in_range(
            fmul(fmul(cam.lens_radius as int, p.y as int), cam.v.x as int),
            2 * COORD_MAX as int,
        ),
        in_range(
            fmul(fmul(cam.lens_radius as int, p.y as int), cam.v.y as int),
            2 * COORD_MAX as int,
        ),
        in_range(
            fmul(fmul(cam.lens_radius as int, p.y as int), cam.v.z as int),
            2 * COORD_MAX as int,
        ),
        in_range(fmul(s, cam.horizontal.x as int), VMAX as int),
        in_range(fmul(s, cam.horizontal.y as int), VMAX as int),
        in_range(fmul(s, cam.horizontal.z as int), VMAX as int),
        in_range(fmul(t, cam.vertical.x as int), VMAX as int),
        in_range(fmul(t, cam.vertical.y as int), VMAX as int),
        in_range(fmul(t, cam.vertical.z as int), VMAX as int),
{
    lemma_fmul_range(cam.lens_radius as int, p.x as int, COORD_MAX as int, SCALE as int,
        COORD_MAX as int);
    lemma_fmul_range(cam.lens_radius as int, p.y as int, COORD_MAX as int, SCALE as int,
        COORD_MAX as int);
    assert(COORD_MAX as int * SCALE == COORD_MAX as int * SCALE) by (nonlinear_arith);
    let rdx = fmul(cam.lens_radius as int, p.x as int);
    let rdy = fmul(cam.lens_radius as int, p.y as int);
    lemma_fmul_range(rdx, cam.u.x as int, COORD_MAX as int, 2 * SCALE as int,
        2 * COORD_MAX as int);
    lemma_fmul_range(rdx, cam.u.y as int, COORD_MAX as int, 2 * SCALE as int,
        2 * COORD_MAX as int);
    lemma_fmul_range(rdx, cam.u.z as int, COORD_MAX as int, 2 * SCALE as int,
        2 * COORD_MAX as int);
    lemma_fmul_range(rdy, cam.v.x as int, COORD_MAX as int, 2 * SCALE as int,
        2 * COORD_MAX as int);
    lemma_fmul_range(rdy, cam.v.y as int, COORD_MAX as int, 2 * SCALE as int,
        2 * COORD_MAX as int);
    lemma_fmul_range(rdy, cam.v.z as int, COORD_MAX as int, 2 * SCALE as int,
        2 * COORD_MAX as int);
    assert(COORD_MAX as int * (2 * SCALE as int) == (2 * COORD_MAX as int) * SCALE)
        by (nonlinear_arith);
    lemma_fmul_range(s, cam.horizontal.x as int, SCALE as int, VMAX as int, VMAX as int);
    lemma_fmul_range(s, cam.horizontal.y as int, SCALE as int, VMAX as int, VMAX as int);
    lemma_fmul_range(s, cam.horizontal.z as int, SCALE as int, VMAX as int, VMAX as int);
    lemma_fmul_range(t, cam.vertical.x as int, SCALE as int, VMAX as int, VMAX as int);
    lemma_fmul_range(t, cam.vertical.y as int, SCALE as int, VMAX as int, VMAX as int);
    lemma_fmul_range(t, cam.vertical.z as int, SCALE as int, VMAX as int, VMAX as int);
    assert(SCALE as int * VMAX == VMAX as int * SCALE) by (nonlinear_arith);
}

/// With no aperture the lens offset vanishes: the ray is the one through the
/// disk's center, whatever the sample was.
proof fn lemma_lens_closed(cam: Camera, s: int, t: int, p: Vec3)
    requires
        cam.lens_radius == 0,
    ensures
        ray_through(cam, s, t, p) == ray_through(cam, s, t, Vec3 { x: 0i64, y: 0i64, z: 0i64 }),
{
    assert(0int * p.x == 0) by (nonlinear_arith);
    assert(0int * p.y == 0) by (nonlinear_arith);
    assert(0int * 0 == 0) by (nonlinear_arith);
    assert(tdiv(0, SCALE as int) == 0) by {
        vstd::arithmetic::div_mod::lemma_div_of0(SCALE as int);
    }
}

} // verus!
