//! Fixed-point scalar arithmetic: the scale convention, floor division
//! and an exact integer square root.

use vstd::prelude::*;
use vstd::arithmetic::div_mod::{
    lemma_fundamental_div_mod, lemma_fundamental_div_mod_converse_div,
    lemma_mod_division_less_than_divisor, lemma_mod_bound,
};

verus! {

/// Number of fractional steps per world unit: every scalar in this crate
/// is a real quantity multiplied by `SCALE`, rounded to an integer.
pub const SCALE: i64 = 65536;

/// The circle constant pi, at scale `SCALE` (rounded to nearest).
pub const PI_SCALED: i64 = 205887;

/// Bound on every scaled coordinate stored in a scene (about 4096 world
/// units); keeps all intermediate products of the intersection formulas
/// inside `i128`.
pub const COORD_MAX: i64 = 268435456;

/// Bound on the scaled components of a ray's origin and direction.
pub const RAY_MAX: i64 = 536870912;

/// Bound on the scaled components of any vector handed to the algebra
/// routines; displacements of in-bounds points along in-bounds rays and
/// surface normals at their hits all stay within it.
pub const VEC_MAX: i64 = 17179869184;

/// Magnitude of a mathematical integer.
pub open spec fn mag(a: int) -> int {
    if a < 0 {
        -a
    } else {
        a
    }
}

/// Largest integer whose square does not exceed `n` (zero for `n <= 0`).
pub open spec fn isqrt_spec(n: int) -> int
    decreases n,
{
    if n <= 0 {
        0
    } else {
        if (isqrt_spec(n - 1) + 1) * (isqrt_spec(n - 1) + 1) <= n {
            isqrt_spec(n - 1) + 1
        } else {
            isqrt_spec(n - 1)
        }
    }
}

/// `isqrt_spec(n)` really is the floor of the square root of `n`.
pub proof fn lemma_isqrt_bounds(n: int)
    requires
        n >= 0,
    ensures
        0 <= isqrt_spec(n),
        isqrt_spec(n) * isqrt_spec(n) <= n,
        n < (isqrt_spec(n) + 1) * (isqrt_spec(n) + 1),
    decreases n,
{
    if n == 0 {
    } else {
        lemma_isqrt_bounds(n - 1);
        let r0 = isqrt_spec(n - 1);
        if (r0 + 1) * (r0 + 1) <= n {
            assert(isqrt_spec(n) == r0 + 1);
            assert(n < (r0 + 2) * (r0 + 2)) by (nonlinear_arith)
                requires
                    r0 >= 0,
                    n - 1 < (r0 + 1) * (r0 + 1),
            ;
        } else {
            assert(isqrt_spec(n) == r0);
        }
    }
}

/// The floor of the square root is the only integer `r` with
/// `r * r <= n < (r + 1) * (r + 1)`.
pub proof fn lemma_isqrt_unique(n: int, r: int)
    requires
        n >= 0,
        r >= 0,
        r * r <= n,
        n < (r + 1) * (r + 1),
    ensures
        r == isqrt_spec(n),
{
    lemma_isqrt_bounds(n);
    let s = isqrt_spec(n);
    if r < s {
        assert(false) by (nonlinear_arith)
            requires
                0 <= r < s,
                s * s <= n,
                n < (r + 1) * (r + 1),
        ;
    }
    if s < r {
        assert(false) by (nonlinear_arith)
            requires
                0 <= s < r,
                r * r <= n,
                n < (s + 1) * (s + 1),
        ;
    }
}

/// Any integer whose square is at most `n` is bounded by `isqrt_spec(n)`
/// in magnitude.
pub proof fn lemma_square_le_isqrt(c: int, n: int)
    requires
        n >= 0,
        c * c <= n,
    ensures
        mag(c) <= isqrt_spec(n),
{
    lemma_isqrt_bounds(n);
    let r = isqrt_spec(n);
    assert(mag(c) * mag(c) == c * c) by (nonlinear_arith);
    if mag(c) > r {
        assert(false) by (nonlinear_arith)
            requires
                0 <= r < mag(c),
                mag(c) * mag(c) <= n,
                n < (r + 1) * (r + 1),
        ;
    }
}

/// If `n < (k + 1) * (k + 1)` then the square root of `n` is at most `k`.
pub proof fn lemma_isqrt_below(n: int, k: int)
    requires
        n >= 0,
        k >= 0,
        n < (k + 1) * (k + 1),
    ensures
        isqrt_spec(n) <= k,
{
    lemma_isqrt_bounds(n);
    let r = isqrt_spec(n);
    if r > k {
        assert(false) by (nonlinear_arith)
            requires
                0 <= k < r,
                r * r <= n,
                n < (k + 1) * (k + 1),
        ;
    }
}

/// Floor of the exact quotient brackets it from below by less than one
/// divisor: `b * (a / b) <= a < b * (a / b) + b`.
pub proof fn lemma_floor_div_bounds(a: int, b: int)
    requires
        b > 0,
    ensures
        b * (a / b) <= a,
        a < b * (a / b) + b,
{
    lemma_fundamental_div_mod(a, b);
    lemma_mod_division_less_than_divisor(a, b);
    lemma_mod_bound(a, b);
}

/// A quotient is bounded by `k` whenever the dividend is bounded by
/// `k` divisors.
pub proof fn lemma_div_mag_bound(a: int, b: int, k: int)
    requires
        b >= 1,
        k >= 0,
        mag(a) <= k * b,
    ensures
        mag(a / b) <= k,
{
    lemma_floor_div_bounds(a, b);
    let q = a / b;
    if q > k {
        assert(false) by (nonlinear_arith)
            requires
                b >= 1 && q >= k + 1 && k >= 0 && b * q <= a && a <= k * b,
        ;
    }
    if q < -k {
        assert(false) by (nonlinear_arith)
            requires
                b >= 1 && q <= -k - 1 && k >= 0 && a < b * q + b && -(k * b) <= a,
        ;
    }
}

/// Exact integer square root by bisection.
pub fn isqrt_u128(n: u128) -> (r: u128)
    requires
        n < 0x4000_0000_0000_0000_0000_0000_0000_0000u128,
    ensures
        r == isqrt_spec(n as int),
        r * r <= n,
        n < (r + 1) * (r + 1),
{
    let mut lo: u128 = 0;
    let mut hi: u128 = 0x8000_0000_0000_0000u128;
    while lo + 1 < hi
        invariant
            lo < hi <= 0x8000_0000_0000_0000u128,
            lo * lo <= n,
            n < hi * hi,
        decreases hi - lo,
    {
        let mid = lo + (hi - lo) / 2;
        proof {
            assert(mid * mid < 0x4000_0000_0000_0000_0000_0000_0000_0000) by (nonlinear_arith)
                requires
                    mid < 0x8000_0000_0000_0000,
                    mid >= 0,
            ;
        }
        if mid * mid <= n {
            lo = mid;
        } else {
            hi = mid;
        }
    }
    proof {
        lemma_isqrt_unique(n as int, lo as int);
    }
    lo
}

/// Floor division of `a` by a positive `b`: the result is the
/// mathematical (Euclidean) quotient `a / b`.
pub fn div_floor_i128(a: i128, b: i128) -> (q: i128)
    requires
        b > 0,
        -0x4000_0000_0000_0000_0000_0000_0000_0000 < a,
        a < 0x4000_0000_0000_0000_0000_0000_0000_0000,
    ensures
        q == a as int / b as int,
{
    if a >= 0 {
        let qu = (a as u128) / (b as u128);
        proof {
            lemma_fundamental_div_mod(a as int, b as int);
            lemma_mod_division_less_than_divisor(a as int, b as int);
            lemma_mod_bound(a as int, b as int);
            lemma_fundamental_div_mod_converse_div(
                a as int,
                b as int,
                (a as int) / (b as int),
                (a as int) % (b as int),
            );
        }
        qu as i128
    } else {
        let m = (-a) as u128;
        let bu = b as u128;
        let qu = m / bu;
        let ru = m % bu;
        if ru == 0 {
            proof {
                lemma_fundamental_div_mod(m as int, bu as int);
                assert(a as int == (-(qu as int)) * (b as int) + 0) by (nonlinear_arith)
                    requires
                        m == qu * bu + 0,
                        a == -(m as int),
                        b == bu,
                ;
                lemma_fundamental_div_mod_converse_div(a as int, b as int, -(qu as int), 0);
            }
            -(qu as i128)
        } else {
            proof {
                lemma_fundamental_div_mod(m as int, bu as int);
                lemma_mod_division_less_than_divisor(m as int, bu as int);
                lemma_mod_bound(m as int, bu as int);
                assert(a as int == (-(qu as int) - 1) * (b as int) + ((b as int) - (ru as int)))
                    by (nonlinear_arith)
                    requires
                        m == qu * bu + ru,
                        a == -(m as int),
                        b == bu,
                ;
                lemma_fundamental_div_mod_converse_div(
                    a as int,
                    b as int,
                    -(qu as int) - 1,
                    (b as int) - (ru as int),
                );
            }
            -(qu as i128) - 1
        }
    }
}

} // verus!
