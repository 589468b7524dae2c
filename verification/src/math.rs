use vstd::prelude::*;
use crate::{SCALE, tdiv, fmul};
use vstd::arithmetic::div_mod::{
    lemma_div_is_ordered, lemma_div_pos_is_pos, lemma_div_multiples_vanish,
};

verus! {

/// `-b <= x <= b`, the shape every range precondition in this crate takes.
pub open spec fn in_range(x: int, b: int) -> bool {
    -b <= x <= b
}

/// Truncated division by a positive divisor shrinks magnitude at the same rate
/// as exact division: `|x| <= b * d` gives `|tdiv(x, d)| <= b`.
pub proof fn lemma_tdiv_bound(x: int, d: int, b: int)
    requires
        d > 0,
        b >= 0,
        in_range(x, b * d),
    ensures
        in_range(tdiv(x, d), b),
{
    assert(b * d == d * b) by (nonlinear_arith);
    lemma_div_multiples_vanish(b, d);
    if x >= 0 {
        lemma_div_pos_is_pos(x, d);
        lemma_div_is_ordered(x, b * d, d);
    } else {
        lemma_div_pos_is_pos(-x, d);
        lemma_div_is_ordered(-x, b * d, d);
    }
}

/// Truncated division never grows magnitude.
pub proof fn lemma_tdiv_shrinks(x: int, d: int)
    requires
        d > 0,
    ensures
        x >= 0 ==> 0 <= tdiv(x, d) <= x,
        x < 0 ==> x <= tdiv(x, d) <= 0,
{
    if x >= 0 {
        lemma_div_pos_is_pos(x, d);
        vstd::arithmetic::div_mod::lemma_div_nonincreasing(x, d);
    } else {
        lemma_div_pos_is_pos(-x, d);
        vstd::arithmetic::div_mod::lemma_div_nonincreasing(-x, d);
    }
}

/// Scaling up by one unit and dividing by one unit is the identity:
/// `x * SCALE / SCALE == x`, for either sign of `x`.
pub proof fn lemma_unit_cancel(x: int)
    ensures
        tdiv(x * SCALE, SCALE as int) == x,
{
    if x >= 0 {
        lemma_div_multiples_vanish(x, SCALE as int);
        assert(SCALE as int * x == x * SCALE) by (nonlinear_arith);
    } else {
        lemma_div_multiples_vanish(-x, SCALE as int);
        assert(SCALE as int * -x == -(x * SCALE)) by (nonlinear_arith);
    }
}

/// The magnitude of a product is the product of the magnitudes.
pub proof fn lemma_mul_in_range(a: int, b: int, aa: int, bb: int)
    requires
        in_range(a, aa),
        in_range(b, bb),
    ensures
        in_range(a * b, aa * bb),
{
    assert(-(aa * bb) <= a * b <= aa * bb) by (nonlinear_arith)
        requires
            -aa <= a <= aa,
            -bb <= b <= bb,
    ;
}

/// Scaling by a whole number of units is exact: `fmul(a * SCALE, b) == a * b`.
pub proof fn lemma_fmul_unit(a: int, b: int)
    ensures
        fmul(a * SCALE, b) == a * b,
        fmul(b, a * SCALE) == a * b,
{
    assert(a * SCALE * b == (a * b) * SCALE) by (nonlinear_arith);
    assert(b * (a * SCALE) == (a * b) * SCALE) by (nonlinear_arith);
    if a * b >= 0 {
        lemma_div_multiples_vanish(a * b, SCALE as int);
    } else {
        lemma_div_multiples_vanish(-(a * b), SCALE as int);
        assert(-((a * b) * SCALE) == (-(a * b)) * SCALE) by (nonlinear_arith);
    }
}

/// Fixed-point product of two scalars, `fmul` made executable.
pub fn fixed_mul(a: i64, b: i64) -> (r: i64)
    requires
        in_range(a * b, i64::MAX * SCALE),
    ensures
        r == fmul(a as int, b as int),
{
    proof {
        lemma_mul_in_range(a as int, b as int, 0x8000_0000_0000_0000, 0x8000_0000_0000_0000);
        lemma_tdiv_bound(a as int * b, SCALE as int, i64::MAX as int);
    }
    let p: i128 = (a as i128) * (b as i128);
    let q: i128 = p / (SCALE as i128);
    q as i64
}

/// `tdiv(a * b, d)` for a positive divisor, made executable.
pub fn mul_div(a: i64, b: i64, d: i64) -> (r: i64)
    requires
        d > 0,
        in_range(tdiv(a * b, d as int), i64::MAX as int),
    ensures
        r == tdiv(a as int * b, d as int),
{
    proof {
        lemma_mul_in_range(a as int, b as int, 0x8000_0000_0000_0000, 0x8000_0000_0000_0000);
        lemma_tdiv_shrinks(a as int * b, d as int);
    }
    let p: i128 = (a as i128) * (b as i128);
    let q: i128 = p / (d as i128);
    q as i64
}

/// A combined range step: from ranges on two factors, a range on their
/// fixed-point product, and room for the raw product in the machine word.
pub proof fn lemma_fmul_range(a: int, b: int, aa: int, bb: int, c: int)
    requires
        in_range(a, aa),
        in_range(b, bb),
        0 <= aa,
        0 <= bb,
        aa * bb <= c * SCALE,
        0 <= c <= i64::MAX,
    ensures
        in_range(a * b, i64::MAX * SCALE),
        in_range(fmul(a, b), c),
{
    lemma_mul_in_range(a, b, aa, bb);
    lemma_tdiv_bound(a * b, SCALE as int, c);
    assert(c * SCALE <= i64::MAX * SCALE) by (nonlinear_arith)
        requires
            c <= i64::MAX,
    ;
}

/// Attenuating a channel keeps it a channel: for factors within `[0, 1]`
/// units, the fixed-point product is nonnegative and below either factor.
pub proof fn lemma_fmul_color(t: int, c: int)
    requires
        0 <= t <= SCALE,
        0 <= c <= SCALE,
    ensures
        0 <= fmul(t, c) <= t,
        fmul(t, c) <= SCALE,
{
    assert(0 <= t * c <= t * SCALE) by (nonlinear_arith)
        requires
            0 <= t,
            0 <= c <= SCALE,
    ;
    lemma_div_pos_is_pos(t * c, SCALE as int);
    lemma_div_is_ordered(t * c, t * SCALE, SCALE as int);
    lemma_div_multiples_vanish(t, SCALE as int);
    assert(SCALE as int * t == t * SCALE) by (nonlinear_arith);
}

/// A square bound inverts to a square-root bound.
pub proof fn lemma_sqrt_le(m: int, b: int)
    requires
        0 <= m,
        b >= 0,
        m <= b * b,
    ensures
        0 <= sqrt_floor(m) <= b,
{
    lemma_sqrt_floor(m);
    if sqrt_floor(m) > b {
        assert(sqrt_floor(m) * sqrt_floor(m) > b * b) by (nonlinear_arith)
            requires
                sqrt_floor(m) > b >= 0,
        ;
    }
}

/// The fixed-point square root of a nonnegative scalar: the integer square
/// root of the scaled value, which carries the scaling of the input.
pub fn fixed_sqrt(x: i64) -> (r: i64)
    requires
        x >= 0,
    ensures
        r == sqrt_floor(x * SCALE),
        r >= 0,
{
    proof {
        lemma_mul_in_range(x as int, SCALE as int, i64::MAX as int, SCALE as int);
        assert(i64::MAX * (SCALE as int) < 0x1000000000000000000000000) by (nonlinear_arith);
    }
    let n: u128 = (x as u128) * (SCALE as u128);
    let r = isqrt(n);
    proof {
        lemma_sqrt_floor(n as int);
        assert(0x1000000000000 * 0x1000000000000int >= i64::MAX * (SCALE as int))
            by (nonlinear_arith);
        if sqrt_floor(n as int) > 0x1000000000000 {
            assert(sqrt_floor(n as int) * sqrt_floor(n as int) > 0x1000000000000 * 0x1000000000000int)
                by (nonlinear_arith)
                requires
                    sqrt_floor(n as int) > 0x1000000000000,
            ;
        }
    }
    r as i64
}

/// The integer square root: the largest `r` with `r * r <= n`.
pub open spec fn sqrt_floor(n: int) -> int
    decreases n,
{
    if n <= 0 {
        0
    } else {
        let p = sqrt_floor(n - 1);
        if (p + 1) * (p + 1) <= n {
            p + 1
        } else {
            p
        }
    }
}

pub proof fn lemma_sqrt_floor(n: int)
    requires
        n >= 0,
    ensures
        sqrt_floor(n) >= 0,
        sqrt_floor(n) * sqrt_floor(n) <= n,
        n < (sqrt_floor(n) + 1) * (sqrt_floor(n) + 1),
    decreases n,
{
    if n == 0 {
        assert(sqrt_floor(0) == 0);
    } else {
        lemma_sqrt_floor(n - 1);
        let p = sqrt_floor(n - 1);
        if (p + 1) * (p + 1) <= n {
            assert((p + 1 + 1) * (p + 1 + 1) > n) by (nonlinear_arith)
                requires
                    p >= 0,
                    n - 1 < (p + 1) * (p + 1),
                    (p + 1) * (p + 1) <= n,
            ;
        }
    }
}

/// Any `r` with `r * r <= n < (r + 1) * (r + 1)` is the integer square root.
pub proof fn lemma_sqrt_unique(n: int, r: int)
    requires
        n >= 0,
        r >= 0,
        r * r <= n,
        n < (r + 1) * (r + 1),
    ensures
        r == sqrt_floor(n),
{
    lemma_sqrt_floor(n);
    let s = sqrt_floor(n);
    if r < s {
        assert((r + 1) * (r + 1) <= s * s) by (nonlinear_arith)
            requires
                0 <= r,
                r + 1 <= s,
        ;
    }
    if s < r {
        assert((s + 1) * (s + 1) <= r * r) by (nonlinear_arith)
            requires
                0 <= s,
                s + 1 <= r,
        ;
    }
}

/// `sqrt_floor` made executable, by binary search.
pub fn isqrt(n: u128) -> (r: u64)
    requires
        n < 0x1000000000000000000000000,
    ensures
        r == sqrt_floor(n as int),
        r * r <= n,
        n < (r + 1) * (r + 1),
{
    let mut lo: u128 = 0;
    let mut hi: u128 = 0x1000000000000;
    proof {
        assert((0x1000000000000 as int) * 0x1000000000000 == 0x1000000000000000000000000)
            by (nonlinear_arith);
    }
    while hi - lo > 1
        invariant
            0 <= lo < hi <= 0x1000000000000,
            lo * lo <= n,
            n < hi * hi,
        decreases hi - lo,
    {
        let mid: u128 = lo + (hi - lo) / 2;
        proof {
            assert(mid * mid < 0x1000000000000000000000000) by (nonlinear_arith)
                requires
                    0 <= mid < 0x1000000000000,
            ;
        }
        if mid * mid <= n {
            lo = mid;
        } else {
            hi = mid;
        }
    }
    proof {
        assert(hi == lo + 1);
        lemma_sqrt_unique(n as int, lo as int);
    }
    lo as u64
}

} // verus!
