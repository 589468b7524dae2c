use vstd::prelude::*;

pub mod camera;
pub mod hitable;
pub mod material;
pub mod math;
pub mod ray;
pub mod sample;
pub mod tracer;
pub mod vec3;

verus! {

/// Number of fixed-point units per whole unit: every scalar in this crate is
/// an `i64` holding its real value times `SCALE`.
pub const SCALE: i64 = 65536;

/// Truncated (round-toward-zero) division, the semantics of `/` on the
/// machine integers this crate computes with. Meaningful for `d > 0`.
pub open spec fn tdiv(x: int, d: int) -> int {
    if x >= 0 {
        x / d
    } else {
        -((-x) / d)
    }
}

/// Fixed-point product: the scaled product of two fixed-point scalars.
pub open spec fn fmul(a: int, b: int) -> int {
    tdiv(a * b, SCALE as int)
}

/// Fixed-point quotient of two scalars, for any nonzero divisor: the scaled
/// numerator divided by the divisor, rounding toward zero.
pub open spec fn sdiv(a: int, d: int) -> int {
    if d > 0 {
        tdiv(a * SCALE, d)
    } else {
        tdiv(-(a * SCALE), -d)
    }
}

/// Largest magnitude the general vector algebra accepts; products of two such
/// scalars, summed three times, still fit the machine word after rescaling.
pub const VMAX: i64 = 0x40_0000_0000;

/// Largest magnitude of a scene coordinate or sphere radius (1024 units).
pub const COORD_MAX: i64 = 0x400_0000;

/// Largest magnitude of a ray direction component (256 units).
pub const DIR_MAX: i64 = 0x100_0000;

/// Largest magnitude of a ray origin or hit point component (4096 units).
pub const POS_MAX: i64 = 0x1000_0000;

/// Largest magnitude of a surface normal component (4 units).
pub const NORM_MAX: i64 = 0x4_0000;

/// Largest magnitude of a ray parameter.
pub const T_LIM: i64 = 0x100_0000_0000;

/// Largest refractive index a dielectric accepts (16 units).
pub const RI_MAX: i64 = 0x10_0000;

} // verus!
