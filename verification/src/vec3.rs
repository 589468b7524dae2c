use vstd::prelude::*;
use crate::{SCALE, VMAX, tdiv, fmul};
use crate::math::{
    in_range, sqrt_floor, lemma_tdiv_bound, lemma_mul_in_range, lemma_sqrt_floor, fixed_mul,
    mul_div, isqrt,
};

verus! {

/// A three-component vector of fixed-point scalars, used for points,
/// directions and colors alike (color channels are the components in order).
#[derive(Clone, Copy, Debug, PartialEq, Eq, Structural)]
pub struct Vec3 {
    pub x: i64,
    pub y: i64,
    pub z: i64,
}

/// Every component within `-b ..= b`.
pub open spec fn bounded(v: Vec3, b: int) -> bool {
    in_range(v.x as int, b) && in_range(v.y as int, b) && in_range(v.z as int, b)
}

/// The exact (unscaled) sum of squared components.
pub open spec fn sq3(v: Vec3) -> int {
    v.x * v.x + v.y * v.y + v.z * v.z
}

/// The scaled dot product of two vectors.
pub open spec fn dot3(a: Vec3, b: Vec3) -> int {
    tdiv(a.x * b.x + a.y * b.y + a.z * b.z, SCALE as int)
}

/// The fixed-point length of a vector: the integer square root of the raw
/// squared sum, which carries exactly the scaling of the components.
pub open spec fn len3(v: Vec3) -> int {
    sqrt_floor(sq3(v))
}

/// One component of the unit vector of `v`.
pub open spec fn unit3(c: int, v: Vec3) -> int {
    tdiv(c * SCALE, len3(v))
}

/// The unit vector of `v`, componentwise.
pub open spec fn unit_vec3(v: Vec3) -> Vec3 {
    Vec3 {
        x: unit3(v.x as int, v) as i64,
        y: unit3(v.y as int, v) as i64,
        z: unit3(v.z as int, v) as i64,
    }
}

/// The componentwise difference, at the spec level.
pub open spec fn sub3(a: Vec3, b: Vec3) -> Vec3 {
    Vec3 { x: (a.x - b.x) as i64, y: (a.y - b.y) as i64, z: (a.z - b.z) as i64 }
}

/// The componentwise sum, at the spec level.
pub open spec fn add3(a: Vec3, b: Vec3) -> Vec3 {
    Vec3 { x: (a.x + b.x) as i64, y: (a.y + b.y) as i64, z: (a.z + b.z) as i64 }
}

/// The scaled cross product, at the spec level.
pub open spec fn cross3(a: Vec3, b: Vec3) -> Vec3 {
    Vec3 {
        x: tdiv(a.y * b.z - a.z * b.y, SCALE as int) as i64,
        y: tdiv(a.z * b.x - a.x * b.z, SCALE as int) as i64,
        z: tdiv(a.x * b.y - a.y * b.x, SCALE as int) as i64,
    }
}

/// A color: every channel within `[0, 1]` units.
pub open spec fn color_in_range(v: Vec3) -> bool {
    0 <= v.x <= SCALE && 0 <= v.y <= SCALE && 0 <= v.z <= SCALE
}

impl Vec3 {
    pub fn new(x: i64, y: i64, z: i64) -> (r: Vec3)
        ensures
            r == (Vec3 { x, y, z }),
    {
        Vec3 { x, y, z }
    }

    pub fn zero() -> (r: Vec3)
        ensures
            r == (Vec3 { x: 0i64, y: 0i64, z: 0i64 }),
    {
        Vec3 { x: 0, y: 0, z: 0 }
    }

    pub fn x(&self) -> (r: i64)
        ensures
            r == self.x,
    {
        self.x
    }

    pub fn y(&self) -> (r: i64)
        ensures
            r == self.y,
    {
        self.y
    }

    pub fn z(&self) -> (r: i64)
        ensures
            r == self.z,
    {
        self.z
    }

    pub fn r(&self) -> (r: i64)
        ensures
            r == self.x,
    {
        self.x
    }

    pub fn g(&self) -> (r: i64)
        ensures
            r == self.y,
    {
        self.y
    }

    pub fn b(&self) -> (r: i64)
        ensures
            r == self.z,
    {
        self.z
    }

    /// Componentwise sum.
    pub fn add(self, rhs: Vec3) -> (r: Vec3)
        requires
            in_range(self.x + rhs.x, i64::MAX as int),
            in_range(self.y + rhs.y, i64::MAX as int),
            in_range(self.z + rhs.z, i64::MAX as int),
        ensures
            r.x == self.x + rhs.x,
            r.y == self.y + rhs.y,
            r.z == self.z + rhs.z,
            r == add3(self, rhs),
    {
        Vec3 { x: self.x + rhs.x, y: self.y + rhs.y, z: self.z + rhs.z }
    }

    /// Componentwise difference.
    pub fn sub(self, rhs: Vec3) -> (r: Vec3)
        requires
            in_range(self.x - rhs.x, i64::MAX as int),
            in_range(self.y - rhs.y, i64::MAX as int),
            in_range(self.z - rhs.z, i64::MAX as int),
        ensures
            r.x == self.x - rhs.x,
            r.y == self.y - rhs.y,
            r.z == self.z - rhs.z,
            r == sub3(self, rhs),
    {
        Vec3 { x: self.x - rhs.x, y: self.y - rhs.y, z: self.z - rhs.z }
    }

    /// Componentwise negation.
    pub fn neg(self) -> (r: Vec3)
        requires
            self.x > i64::MIN,
            self.y > i64::MIN,
            self.z > i64::MIN,
        ensures
            r.x == -self.x,
            r.y == -self.y,
            r.z == -self.z,
    {
        Vec3 { x: -self.x, y: -self.y, z: -self.z }
    }

    /// Componentwise fixed-point product.
    pub fn mul(self, rhs: Vec3) -> (r: Vec3)
        requires
            bounded(self, VMAX as int),
            bounded(rhs, VMAX as int),
        ensures
            r.x == fmul(self.x as int, rhs.x as int),
            r.y == fmul(self.y as int, rhs.y as int),
            r.z == fmul(self.z as int, rhs.z as int),
    {
        proof {
            lemma_mul_in_range(self.x as int, rhs.x as int, VMAX as int, VMAX as int);
            lemma_mul_in_range(self.y as int, rhs.y as int, VMAX as int, VMAX as int);
            lemma_mul_in_range(self.z as int, rhs.z as int, VMAX as int, VMAX as int);
        }
        Vec3 {
            x: fixed_mul(self.x, rhs.x),
            y: fixed_mul(self.y, rhs.y),
            z: fixed_mul(self.z, rhs.z),
        }
    }

    /// Fixed-point product with a scalar.
    pub fn scale(self, k: i64) -> (r: Vec3)
        requires
            bounded(self, VMAX as int),
            in_range(k as int, VMAX as int),
        ensures
            r.x == fmul(self.x as int, k as int),
            r.y == fmul(self.y as int, k as int),
            r.z == fmul(self.z as int, k as int),
    {
        proof {
            lemma_mul_in_range(self.x as int, k as int, VMAX as int, VMAX as int);
            lemma_mul_in_range(self.y as int, k as int, VMAX as int, VMAX as int);
            lemma_mul_in_range(self.z as int, k as int, VMAX as int, VMAX as int);
        }
        Vec3 { x: fixed_mul(self.x, k), y: fixed_mul(self.y, k), z: fixed_mul(self.z, k) }
    }

    /// Componentwise fixed-point division. The divisor components must be
    /// nonzero; the result of dividing by a vector with a zero component is
    /// left to the caller to rule out.
    pub fn div(self, rhs: Vec3) -> (r: Vec3)
        requires
            bounded(self, VMAX as int),
            rhs.x != 0,
            rhs.y != 0,
            rhs.z != 0,
            rhs.x > i64::MIN,
            rhs.y > i64::MIN,
            rhs.z > i64::MIN,
        ensures
            r.x == crate::sdiv(self.x as int, rhs.x as int),
            r.y == crate::sdiv(self.y as int, rhs.y as int),
            r.z == crate::sdiv(self.z as int, rhs.z as int),
    {
        Vec3 {
            x: scalar_div(self.x, rhs.x),
            y: scalar_div(self.y, rhs.y),
            z: scalar_div(self.z, rhs.z),
        }
    }

    /// Fixed-point division by a scalar.
    pub fn div_scalar(self, k: i64) -> (r: Vec3)
        requires
            bounded(self, VMAX as int),
            k != 0,
            k > i64::MIN,
        ensures
            r.x == crate::sdiv(self.x as int, k as int),
            r.y == crate::sdiv(self.y as int, k as int),
            r.z == crate::sdiv(self.z as int, k as int),
    {
        Vec3 { x: scalar_div(self.x, k), y: scalar_div(self.y, k), z: scalar_div(self.z, k) }
    }

    /// The scaled squared length.
    pub fn squared_length(&self) -> (r: i64)
        requires
            bounded(*self, VMAX as int),
        ensures
            r == tdiv(sq3(*self), SCALE as int),
            r >= 0,
    {
        let d = Vec3::dot(*self, *self);
        proof {
            if d < 0 {
                crate::math::lemma_tdiv_shrinks(sq3(*self), SCALE as int);
                assert(self.x * self.x >= 0) by (nonlinear_arith);
                assert(self.y * self.y >= 0) by (nonlinear_arith);
                assert(self.z * self.z >= 0) by (nonlinear_arith);
            }
        }
        d
    }

    /// The fixed-point length: the integer square root of the raw squared sum.
    pub fn length(&self) -> (r: i64)
        requires
            bounded(*self, VMAX as int),
        ensures
            r == len3(*self),
            0 <= r <= 3 * VMAX,
    {
        let n = raw_sq(*self);
        let r = isqrt(n);
        proof {
            lemma_sqrt_floor(sq3(*self));
            assert(sq3(*self) <= 3 * (VMAX as int * VMAX)) by (nonlinear_arith)
                requires
                    bounded(*self, VMAX as int),
            ;
            if len3(*self) > 3 * VMAX {
                assert(len3(*self) * len3(*self) > 3 * (VMAX as int * VMAX)) by (nonlinear_arith)
                    requires
                        len3(*self) > 3 * (VMAX as int),
                        VMAX == 0x40_0000_0000i64,
                ;
            }
        }
        r as i64
    }

    /// The unit vector: each component scaled up and divided by the length.
    /// The result's components never exceed one unit in magnitude.
    pub fn unit_vector(&self) -> (r: Vec3)
        requires
            bounded(*self, VMAX as int),
            sq3(*self) > 0,
        ensures
            r.x == unit3(self.x as int, *self),
            r.y == unit3(self.y as int, *self),
            r.z == unit3(self.z as int, *self),
            r == unit_vec3(*self),
            bounded(r, SCALE as int),
    {
        let len = self.length();
        proof {
            assert(self.x * self.x >= 0 && self.y * self.y >= 0 && self.z * self.z >= 0)
                by (nonlinear_arith);
            lemma_unit_component(self.x as int, *self);
            lemma_unit_component(self.y as int, *self);
            lemma_unit_component(self.z as int, *self);
        }
        Vec3 {
            x: mul_div(self.x, SCALE, len),
            y: mul_div(self.y, SCALE, len),
            z: mul_div(self.z, SCALE, len),
        }
    }

    /// The componentwise fixed-point square root, for gamma-style color maps.
    /// Components must be nonnegative.
    pub fn sqrt(&self) -> (r: Vec3)
        requires
            bounded(*self, VMAX as int),
            self.x >= 0,
            self.y >= 0,
            self.z >= 0,
        ensures
            r.x == sqrt_floor(self.x * SCALE),
            r.y == sqrt_floor(self.y * SCALE),
            r.z == sqrt_floor(self.z * SCALE),
    {
        Vec3 {
            x: comp_sqrt(self.x),
            y: comp_sqrt(self.y),
            z: comp_sqrt(self.z),
        }
    }
}

impl Vec3 {
    /// Whether every component lies within `-b ..= b`.
    pub fn in_bounds(&self, b: i64) -> (r: bool)
        requires
            b >= 0,
        ensures
            r == bounded(*self, b as int),
    {
        -b <= self.x && self.x <= b && -b <= self.y && self.y <= b && -b <= self.z && self.z <= b
    }
}

impl Vec3 {
    /// The scaled dot product, `dot3` made executable.
    pub fn dot(v1: Vec3, v2: Vec3) -> (r: i64)
        requires
            bounded(v1, VMAX as int),
            bounded(v2, VMAX as int),
        ensures
            r == dot3(v1, v2),
    {
        proof {
            lemma_mul_in_range(v1.x as int, v2.x as int, VMAX as int, VMAX as int);
            lemma_mul_in_range(v1.y as int, v2.y as int, VMAX as int, VMAX as int);
            lemma_mul_in_range(v1.z as int, v2.z as int, VMAX as int, VMAX as int);
            lemma_tdiv_bound(
                v1.x as int * v2.x + v1.y as int * v2.y + v1.z as int * v2.z,
                SCALE as int,
                i64::MAX as int,
            );
            assert((3 * (VMAX as int * VMAX)) <= i64::MAX * SCALE) by (nonlinear_arith);
        }
        let p: i128 = (v1.x as i128) * (v2.x as i128) + (v1.y as i128) * (v2.y as i128)
            + (v1.z as i128) * (v2.z as i128);
        let q: i128 = p / (SCALE as i128);
        q as i64
    }

    /// The scaled cross product.
    pub fn cross(v1: Vec3, v2: Vec3) -> (r: Vec3)
        requires
            bounded(v1, VMAX as int),
            bounded(v2, VMAX as int),
        ensures
            r.x == tdiv(v1.y * v2.z - v1.z * v2.y, SCALE as int),
            r.y == tdiv(v1.z * v2.x - v1.x * v2.z, SCALE as int),
            r.z == tdiv(v1.x * v2.y - v1.y * v2.x, SCALE as int),
            r == cross3(v1, v2),
    {
        Vec3 {
            x: cross_term(v1.y, v2.z, v1.z, v2.y),
            y: cross_term(v1.z, v2.x, v1.x, v2.z),
            z: cross_term(v1.x, v2.y, v1.y, v2.x),
        }
    }
}

/// The dot product does not depend on the order of its arguments.
pub proof fn lemma_dot_symmetric(a: Vec3, b: Vec3)
    ensures
        dot3(a, b) == dot3(b, a),
{
    assert(a.x * b.x + a.y * b.y + a.z * b.z == b.x * a.x + b.y * a.y + b.z * a.z)
        by (nonlinear_arith);
}

/// One scaled difference-of-products term of the cross product.
fn cross_term(a: i64, b: i64, c: i64, d: i64) -> (r: i64)
    requires
        in_range(a as int, VMAX as int),
        in_range(b as int, VMAX as int),
        in_range(c as int, VMAX as int),
        in_range(d as int, VMAX as int),
    ensures
        r == tdiv(a * b - c * d, SCALE as int),
{
    proof {
        lemma_mul_in_range(a as int, b as int, VMAX as int, VMAX as int);
        lemma_mul_in_range(c as int, d as int, VMAX as int, VMAX as int);
        lemma_tdiv_bound(a as int * b - c as int * d, SCALE as int, i64::MAX as int);
        assert(2 * (VMAX as int * VMAX) <= i64::MAX * SCALE) by (nonlinear_arith);
    }
    let p: i128 = (a as i128) * (b as i128) - (c as i128) * (d as i128);
    let q: i128 = p / (SCALE as i128);
    q as i64
}

/// Truncated division of two scalars, scaled so the quotient stays in
/// fixed-point form.
fn scalar_div(a: i64, k: i64) -> (r: i64)
    requires
        in_range(a as int, VMAX as int),
        k != 0,
        k > i64::MIN,
    ensures
        r == crate::sdiv(a as int, k as int),
{
    proof {
        lemma_mul_in_range(a as int, SCALE as int, VMAX as int, SCALE as int);
        if k >= 0 {
            crate::math::lemma_tdiv_shrinks(a as int * SCALE, k as int);
        } else {
            crate::math::lemma_tdiv_shrinks(-(a as int) * SCALE, -(k as int));
            assert(-(a as int) * SCALE == -(a as int * SCALE)) by (nonlinear_arith);
        }
    }
    if k > 0 {
        mul_div(a, SCALE, k)
    } else {
        let r = mul_div(a, SCALE, -k);
        proof {
            crate::math::lemma_tdiv_shrinks(a as int * SCALE, -(k as int));
        }
        -r
    }
}

/// The raw (unscaled) squared sum of the components, as a machine word.
fn raw_sq(v: Vec3) -> (r: u128)
    requires
        bounded(v, VMAX as int),
    ensures
        r == sq3(v),
        r < 0x1000000000000000000000000,
{
    proof {
        lemma_mul_in_range(v.x as int, v.x as int, VMAX as int, VMAX as int);
        lemma_mul_in_range(v.y as int, v.y as int, VMAX as int, VMAX as int);
        lemma_mul_in_range(v.z as int, v.z as int, VMAX as int, VMAX as int);
        assert(v.x * v.x >= 0) by (nonlinear_arith);
        assert(v.y * v.y >= 0) by (nonlinear_arith);
        assert(v.z * v.z >= 0) by (nonlinear_arith);
        assert(3 * (VMAX as int * VMAX) < 0x1000000000000000000000000) by (nonlinear_arith);
    }
    let p: i128 = (v.x as i128) * (v.x as i128) + (v.y as i128) * (v.y as i128)
        + (v.z as i128) * (v.z as i128);
    p as u128
}

/// The fixed-point square root of one color channel.
fn comp_sqrt(c: i64) -> (r: i64)
    requires
        0 <= c <= VMAX,
    ensures
        r == sqrt_floor(c * SCALE),
        r >= 0,
{
    proof {
        lemma_mul_in_range(c as int, SCALE as int, VMAX as int, SCALE as int);
        lemma_sqrt_floor(c * SCALE);
        assert(VMAX as int * SCALE < 0x1000000000000000000000000) by (nonlinear_arith);
        assert(sqrt_floor(c * SCALE) <= i64::MAX) by {
            assert(i64::MAX * (i64::MAX as int) > VMAX as int * SCALE) by (nonlinear_arith);
            if sqrt_floor(c * SCALE) > i64::MAX {
                assert(sqrt_floor(c * SCALE) * sqrt_floor(c * SCALE) >= i64::MAX * (i64::MAX as int))
                    by (nonlinear_arith)
                    requires
                        sqrt_floor(c * SCALE) > i64::MAX,
                ;
            }
        }
    }
    let n: u128 = (c as u128) * (SCALE as u128);
    let r = isqrt(n);
    r as i64
}

/// A loose range on the dot product from ranges on the components: the
/// rescaling only shrinks the raw sum of products.
pub proof fn lemma_dot3_range(a: Vec3, b: Vec3, aa: int, bb: int)
    requires
        bounded(a, aa),
        bounded(b, bb),
        aa >= 0,
        bb >= 0,
    ensures
        in_range(dot3(a, b), 3 * (aa * bb)),
{
    lemma_mul_in_range(a.x as int, b.x as int, aa, bb);
    lemma_mul_in_range(a.y as int, b.y as int, aa, bb);
    lemma_mul_in_range(a.z as int, b.z as int, aa, bb);
    crate::math::lemma_tdiv_shrinks(a.x as int * b.x + a.y as int * b.y + a.z as int * b.z,
        SCALE as int);
}

/// The length dominates the magnitude of every component.
pub proof fn lemma_len_dominates(v: Vec3)
    ensures
        in_range(v.x as int, len3(v)),
        in_range(v.y as int, len3(v)),
        in_range(v.z as int, len3(v)),
        len3(v) >= 0,
        sq3(v) > 0 ==> len3(v) >= 1,
{
    assert(v.x * v.x >= 0 && v.y * v.y >= 0 && v.z * v.z >= 0) by (nonlinear_arith);
    lemma_sqrt_floor(sq3(v));
    let l = len3(v);
    assert(in_range(v.x as int, l)) by (nonlinear_arith)
        requires
            v.x * v.x <= sq3(v) < (l + 1) * (l + 1),
            l >= 0,
            v.x * v.x >= 0,
    ;
    assert(in_range(v.y as int, l)) by (nonlinear_arith)
        requires
            v.y * v.y <= sq3(v) < (l + 1) * (l + 1),
            l >= 0,
            v.y * v.y >= 0,
    ;
    assert(in_range(v.z as int, l)) by (nonlinear_arith)
        requires
            v.z * v.z <= sq3(v) < (l + 1) * (l + 1),
            l >= 0,
            v.z * v.z >= 0,
    ;
    if sq3(v) > 0 && l == 0 {
        assert((l + 1) * (l + 1) == 1) by (nonlinear_arith)
            requires
                l == 0,
        ;
    }
}

/// The components of the unit vector are within one unit, so the spec-level
/// construction of `unit_vec3` loses nothing to the machine word.
pub proof fn lemma_unit_vec3_bounded(v: Vec3)
    requires
        sq3(v) > 0,
    ensures
        bounded(unit_vec3(v), SCALE as int),
        unit_vec3(v).x == unit3(v.x as int, v),
        unit_vec3(v).y == unit3(v.y as int, v),
        unit_vec3(v).z == unit3(v.z as int, v),
        len3(v) >= 1,
{
    assert(v.x * v.x >= 0 && v.y * v.y >= 0 && v.z * v.z >= 0) by (nonlinear_arith);
    lemma_unit_component(v.x as int, v);
    lemma_unit_component(v.y as int, v);
    lemma_unit_component(v.z as int, v);
}

/// Each component of a unit vector is at most one unit: the length dominates
/// the magnitude of every component.
proof fn lemma_unit_component(c: int, v: Vec3)
    requires
        sq3(v) > 0,
        c * c <= sq3(v),
    ensures
        in_range(unit3(c, v), SCALE as int),
        in_range(tdiv(c * SCALE, len3(v)), i64::MAX as int),
        len3(v) > 0,
{
    lemma_sqrt_floor(sq3(v));
    let l = len3(v);
    if l == 0 {
        assert((l + 1) * (l + 1) == 1) by (nonlinear_arith)
            requires
                l == 0,
        ;
        assert(sq3(v) < 1);
    }
    assert(c <= l && -c <= l) by (nonlinear_arith)
        requires
            c * c <= sq3(v),
            sq3(v) < (l + 1) * (l + 1),
            l >= 0,
    ;
    assert(in_range(c * SCALE, SCALE as int * l)) by (nonlinear_arith)
        requires
            -l <= c <= l,
    ;
    assert(SCALE as int * l == l * SCALE) by (nonlinear_arith);
    lemma_tdiv_bound(c * SCALE, l, SCALE as int);
}



/// The remainder of truncated division: within one divisor of zero, on the
/// side of the dividend's sign.
proof fn lemma_trunc_divmod(x: int, d: int)
    requires
        d > 0,
    ensures
        x >= 0 ==> 0 <= x - d * tdiv(x, d) < d && tdiv(x, d) >= 0,
        x < 0 ==> -d < x - d * tdiv(x, d) <= 0 && tdiv(x, d) <= 0,
{
    if x >= 0 {
        vstd::arithmetic::div_mod::lemma_fundamental_div_mod(x, d);
        vstd::arithmetic::div_mod::lemma_mod_division_less_than_divisor(x, d);
        vstd::arithmetic::div_mod::lemma_div_pos_is_pos(x, d);
    } else {
        vstd::arithmetic::div_mod::lemma_fundamental_div_mod(-x, d);
        vstd::arithmetic::div_mod::lemma_mod_division_less_than_divisor(-x, d);
        vstd::arithmetic::div_mod::lemma_div_pos_is_pos(-x, d);
        assert(x - d * tdiv(x, d) == -((-x) - d * ((-x) / d))) by (nonlinear_arith)
            requires
                tdiv(x, d) == -((-x) / d),
        ;
    }
}

/// One component's contribution to the squared length of the unit vector:
/// the division error is within one length of zero and agrees in sign with
/// the component.
proof fn lemma_unit_component_error(c: int, l: int)
    requires
        l > 0,
        in_range(c, l),
    ensures
        ({
            let e = c * SCALE - l * tdiv(c * SCALE, l);
            &&& 0 <= c * e
            &&& c * e <= l * l
            &&& 0 <= e * e <= l * l
            &&& tdiv(c * SCALE, l) * l == c * SCALE - e
            &&& tdiv(c * SCALE, l) * tdiv(c * SCALE, l) * (l * l) == c * c * (
                SCALE as int * SCALE) - 2 * SCALE * (c * e) + e * e
        }),
{
    let u = tdiv(c * SCALE, l);
    let e = c * SCALE - l * u;
    lemma_trunc_divmod(c * SCALE, l);
    if c >= 0 {
        assert(c * SCALE >= 0) by (nonlinear_arith)
            requires
                c >= 0,
        ;
        assert(0 <= c * e && c * e <= l * l) by (nonlinear_arith)
            requires
                0 <= c <= l,
                0 <= e < l,
        ;
        assert(0 <= e * e <= l * l) by (nonlinear_arith)
            requires
                0 <= e < l,
        ;
    } else {
        assert(c * SCALE < 0) by (nonlinear_arith)
            requires
                c < 0,
        ;
        assert(0 <= c * e && c * e <= l * l) by (nonlinear_arith)
            requires
                -l <= c < 0,
                -l < e <= 0,
        ;
        assert(0 <= e * e <= l * l) by (nonlinear_arith)
            requires
                -l < e <= 0,
        ;
    }
    assert(u * l == c * SCALE - e) by (nonlinear_arith)
        requires
            e == c * SCALE - l * u,
    ;
    assert(u * u * (l * l) == c * c * (SCALE as int * SCALE) - 2 * SCALE * (c * e) + e * e)
        by (nonlinear_arith)
        requires
            u * l == c * SCALE - e,
    ;
}

/// Normalization yields a vector of unit length, to within a few fixed-point
/// steps: for any vector at least one unit long, the length of its unit
/// vector lies within four steps below and one step above one unit.
pub proof fn lemma_unit_vector_length(v: Vec3)
    requires
        sq3(v) >= SCALE as int * SCALE,
        bounded(v, VMAX as int),
    ensures
        SCALE - 4 <= len3(unit_vec3(v)) <= SCALE + 1,
{
    let l = len3(v);
    lemma_sqrt_floor(sq3(v));
    lemma_len_dominates(v);
    assert(l >= SCALE) by (nonlinear_arith)
        requires
            (l + 1) * (l + 1) > sq3(v) >= SCALE as int * SCALE,
            l >= 0,
    ;
    lemma_unit_vec3_bounded(v);
    let u = unit_vec3(v);
    let ux = tdiv(v.x * SCALE, l);
    let uy = tdiv(v.y * SCALE, l);
    let uz = tdiv(v.z * SCALE, l);
    let ex = v.x * SCALE - l * ux;
    let ey = v.y * SCALE - l * uy;
    let ez = v.z * SCALE - l * uz;
    lemma_unit_component_error(v.x as int, l);
    lemma_unit_component_error(v.y as int, l);
    lemma_unit_component_error(v.z as int, l);
    let q = sq3(u);
    assert(q == ux * ux + uy * uy + uz * uz);
    let ee = v.x * ex + v.y * ey + v.z * ez;
    let ff = ex * ex + ey * ey + ez * ez;
    assert(q * (l * l) == ux * ux * (l * l) + uy * uy * (l * l) + uz * uz * (l * l))
        by (nonlinear_arith)
        requires
            q == ux * ux + uy * uy + uz * uz,
    ;
    assert(sq3(v) * (SCALE as int * SCALE) == v.x * v.x * (SCALE as int * SCALE) + v.y * v.y * (
    SCALE as int * SCALE) + v.z * v.z * (SCALE as int * SCALE)) by (nonlinear_arith)
        requires
            sq3(v) == v.x * v.x + v.y * v.y + v.z * v.z,
    ;
    assert(2 * SCALE * ee == 2 * SCALE * (v.x * ex) + 2 * SCALE * (v.y * ey) + 2 * SCALE * (
    v.z * ez)) by (nonlinear_arith)
        requires
            ee == v.x * ex + v.y * ey + v.z * ez,
    ;
    assert(q * (l * l) == sq3(v) * (SCALE as int * SCALE) - 2 * SCALE * ee + ff);
    // Lower bound: the error terms take away at most six scale steps.
    assert(q * (l * l) >= (SCALE as int * SCALE - 6 * SCALE) * (l * l)) by (nonlinear_arith)
        requires
            q * (l * l) == sq3(v) * (SCALE as int * SCALE) - 2 * SCALE * ee + ff,
            sq3(v) >= l * l,
            0 <= ee <= 3 * (l * l),
            0 <= ff,
            l >= SCALE,
    ;
    assert(q >= SCALE as int * SCALE - 6 * SCALE) by (nonlinear_arith)
        requires
            q * (l * l) >= (SCALE as int * SCALE - 6 * SCALE) * (l * l),
            l > 0,
    ;
    // Upper bound: the squared sum exceeds one square unit by at most a few
    // scale steps, because the length is at least one unit.
    assert(sq3(v) <= l * l + 2 * l) by (nonlinear_arith)
        requires
            sq3(v) < (l + 1) * (l + 1),
    ;
    assert(q <= SCALE as int * SCALE + 2 * SCALE + 3) by (nonlinear_arith)
        requires
            q * (l * l) == sq3(v) * (SCALE as int * SCALE) - 2 * SCALE * ee + ff,
            sq3(v) <= l * l + 2 * l,
            ee >= 0,
            0 <= ff <= 3 * (l * l),
            l >= SCALE,
            SCALE == 65536,
    ;
    let m = len3(u);
    assert(q >= 0) by (nonlinear_arith)
        requires
            q == ux * ux + uy * uy + uz * uz,
    ;
    lemma_sqrt_floor(q);
    assert(m >= SCALE - 4) by (nonlinear_arith)
        requires
            (m + 1) * (m + 1) > q >= SCALE as int * SCALE - 6 * SCALE,
            m >= 0,
            SCALE == 65536,
    ;
    assert(m <= SCALE + 1) by (nonlinear_arith)
        requires
            m * m <= q <= SCALE as int * SCALE + 2 * SCALE + 3,
            m >= 0,
            SCALE == 65536,
    ;
}

} // verus!
