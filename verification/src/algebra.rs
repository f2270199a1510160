//! Three-dimensional vector and point algebra over scaled integers.

use vstd::prelude::*;
use vstd::arithmetic::div_mod::{lemma_div_is_ordered, lemma_div_multiples_vanish};
use crate::math::{
    SCALE, VEC_MAX, mag, isqrt_spec, isqrt_u128, div_floor_i128, lemma_isqrt_below,
    lemma_isqrt_bounds, lemma_square_le_isqrt, lemma_floor_div_bounds,
};

verus! {

/// A direction or displacement; each component is a real value at scale
/// [`SCALE`].
#[derive(Clone, Copy, Debug, PartialEq, Eq, Structural)]
pub struct Vector3D {
    pub x: i64,
    pub y: i64,
    pub z: i64,
}

/// A location in space; each component is a real value at scale
/// [`SCALE`].
#[derive(Clone, Copy, Debug, PartialEq, Eq, Structural)]
pub struct Point {
    pub x: i64,
    pub y: i64,
    pub z: i64,
}

/// Scalar product of two vectors; the result carries scale
/// `SCALE * SCALE` and is exact.
pub open spec fn dot_spec(a: Vector3D, b: Vector3D) -> int {
    a.x * b.x + a.y * b.y + a.z * b.z
}

/// Squared Euclidean length, at scale `SCALE * SCALE`; exact.
pub open spec fn norm2_spec(v: Vector3D) -> int {
    dot_spec(v, v)
}

/// The component of a unit vector: `c / |v|` at scale `SCALE`, rounded
/// down, where `l` is the scaled length of `v`.
pub open spec fn unit_comp_spec(c: int, l: int) -> int {
    (c * SCALE) / l
}

impl Vector3D {
    /// All components within `[-b, b]`.
    pub open spec fn in_range(self, b: int) -> bool {
        -b <= self.x <= b && -b <= self.y <= b && -b <= self.z <= b
    }

    /// The zero vector has no direction; everything else does.
    pub open spec fn is_nonzero(self) -> bool {
        self.x != 0 || self.y != 0 || self.z != 0
    }
}

impl Point {
    /// All components within `[-b, b]`.
    pub open spec fn in_range(self, b: int) -> bool {
        -b <= self.x <= b && -b <= self.y <= b && -b <= self.z <= b
    }
}

/// A squared length is never negative, and no squared component exceeds
/// it.
pub proof fn lemma_norm2_nonneg(v: Vector3D)
    ensures
        norm2_spec(v) >= 0,
        v.x * v.x <= norm2_spec(v),
        v.y * v.y <= norm2_spec(v),
        v.z * v.z <= norm2_spec(v),
        v.is_nonzero() ==> norm2_spec(v) >= 1,
{
    assert(v.x * v.x >= 0 && v.y * v.y >= 0 && v.z * v.z >= 0) by (nonlinear_arith);
    if v.is_nonzero() {
        assert(v.x != 0 ==> v.x * v.x >= 1) by (nonlinear_arith);
        assert(v.y != 0 ==> v.y * v.y >= 1) by (nonlinear_arith);
        assert(v.z != 0 ==> v.z * v.z >= 1) by (nonlinear_arith);
    }
}

/// Bound on a scalar product from a bound on all six components.
pub proof fn lemma_dot_bound(a: Vector3D, b: Vector3D, m: int)
    requires
        m >= 0,
        a.in_range(m),
        b.in_range(m),
    ensures
        mag(dot_spec(a, b)) <= 3 * m * m,
{
    assert(mag(a.x * b.x + a.y * b.y + a.z * b.z) <= 3 * m * m) by (nonlinear_arith)
        requires
            m >= 0,
            -m <= a.x <= m && -m <= a.y <= m && -m <= a.z <= m,
            -m <= b.x <= m && -m <= b.y <= m && -m <= b.z <= m,
    ;
}

/// Scalar product of two vectors, exactly, at scale `SCALE * SCALE`.
pub fn dot_3d(vec_a: &Vector3D, vec_b: &Vector3D) -> (r: i128)
    requires
        vec_a.in_range(VEC_MAX as int),
        vec_b.in_range(VEC_MAX as int),
    ensures
        r == dot_spec(*vec_a, *vec_b),
{
    proof {
        lemma_dot_bound(*vec_a, *vec_b, VEC_MAX as int);
        assert(mag(vec_a.x * vec_b.x) <= 0x10_0000_0000_0000_0000
            && mag(vec_a.y * vec_b.y) <= 0x10_0000_0000_0000_0000
            && mag(vec_a.z * vec_b.z) <= 0x10_0000_0000_0000_0000) by (nonlinear_arith)
            requires
                vec_a.in_range(0x4_0000_0000) && vec_b.in_range(0x4_0000_0000),
        ;
    }
    (vec_a.x as i128) * (vec_b.x as i128) + (vec_a.y as i128) * (vec_b.y as i128)
        + (vec_a.z as i128) * (vec_b.z as i128)
}

/// Vector (cross) product; each component is divided by `SCALE` to stay
/// at scale `SCALE`, rounding down.
pub fn cross_3d(vec_a: Vector3D, vec_b: Vector3D) -> (r: Vector3D)
    requires
        vec_a.in_range(VEC_MAX as int),
        vec_b.in_range(VEC_MAX as int),
    ensures
        r.x == (vec_a.y * vec_b.z - vec_a.z * vec_b.y) / (SCALE as int),
        r.y == (vec_a.z * vec_b.x - vec_a.x * vec_b.z) / (SCALE as int),
        r.z == (vec_a.x * vec_b.y - vec_a.y * vec_b.x) / (SCALE as int),
{
    proof {
        assert(mag(vec_a.y * vec_b.z) <= 0x10_0000_0000_0000_0000
            && mag(vec_a.z * vec_b.y) <= 0x10_0000_0000_0000_0000
            && mag(vec_a.z * vec_b.x) <= 0x10_0000_0000_0000_0000
            && mag(vec_a.x * vec_b.z) <= 0x10_0000_0000_0000_0000
            && mag(vec_a.x * vec_b.y) <= 0x10_0000_0000_0000_0000
            && mag(vec_a.y * vec_b.x) <= 0x10_0000_0000_0000_0000) by (nonlinear_arith)
            requires
                vec_a.in_range(0x4_0000_0000) && vec_b.in_range(0x4_0000_0000),
        ;
    }
    let nx = (vec_a.y as i128) * (vec_b.z as i128) - (vec_a.z as i128) * (vec_b.y as i128);
    let ny = (vec_a.z as i128) * (vec_b.x as i128) - (vec_a.x as i128) * (vec_b.z as i128);
    let nz = (vec_a.x as i128) * (vec_b.y as i128) - (vec_a.y as i128) * (vec_b.x as i128);
    let qx = div_floor_i128(nx, SCALE as i128);
    let qy = div_floor_i128(ny, SCALE as i128);
    let qz = div_floor_i128(nz, SCALE as i128);
    proof {
        lemma_floor_div_bounds(nx as int, SCALE as int);
        lemma_floor_div_bounds(ny as int, SCALE as int);
        lemma_floor_div_bounds(nz as int, SCALE as int);
    }
    Vector3D { x: qx as i64, y: qy as i64, z: qz as i64 }
}

impl Vector3D {
    /// Displacement carrying `a` to `b`, componentwise `b - a`; exact.
    pub fn a2b_vec(a: &Point, b: &Point) -> (r: Vector3D)
        requires
            a.in_range(0x1000_0000_0000_0000),
            b.in_range(0x1000_0000_0000_0000),
        ensures
            r.x == b.x - a.x,
            r.y == b.y - a.y,
            r.z == b.z - a.z,
    {
        Vector3D { x: b.x - a.x, y: b.y - a.y, z: b.z - a.z }
    }

    /// Scaled Euclidean length: the square root of the squared length,
    /// rounded down.
    pub fn length(&self) -> (r: i64)
        requires
            self.in_range(VEC_MAX as int),
        ensures
            r == isqrt_spec(norm2_spec(*self)),
            0 <= r <= 0x8_0000_0000,
            self.is_nonzero() ==> r >= 1,
    {
        proof {
            lemma_norm2_nonneg(*self);
            lemma_dot_bound(*self, *self, VEC_MAX as int);
        }
        let d = dot_3d(self, self);
        let s = isqrt_u128(d as u128);
        proof {
            assert(d < (0x8_0000_0000 as int) * (0x8_0000_0000 as int));
            lemma_isqrt_below(d as int, 0x7_ffff_ffff);
            if self.is_nonzero() {
                lemma_square_le_isqrt(1, norm2_spec(*self));
            }
        }
        s as i64
    }

    /// The unit vector pointing the same way, at scale `SCALE`:
    /// each component divided by the scaled length, rounding down.
    pub fn unit_vec(&self) -> (r: Vector3D)
        requires
            self.in_range(VEC_MAX as int),
            self.is_nonzero(),
        ensures
            r.x == unit_comp_spec(self.x as int, isqrt_spec(norm2_spec(*self))),
            r.y == unit_comp_spec(self.y as int, isqrt_spec(norm2_spec(*self))),
            r.z == unit_comp_spec(self.z as int, isqrt_spec(norm2_spec(*self))),
            r.in_range(SCALE as int),
    {
        proof {
            lemma_norm2_nonneg(*self);
            assert(mag(self.x * SCALE) <= 0x4000_0000_0000_0000
                && mag(self.y * SCALE) <= 0x4000_0000_0000_0000
                && mag(self.z * SCALE) <= 0x4000_0000_0000_0000) by (nonlinear_arith)
                requires
                    self.in_range(0x4_0000_0000),
            ;
        }
        let l = self.length();
        let ux = div_floor_i128((self.x as i128) * (SCALE as i128), l as i128);
        let uy = div_floor_i128((self.y as i128) * (SCALE as i128), l as i128);
        let uz = div_floor_i128((self.z as i128) * (SCALE as i128), l as i128);
        proof {
            let n2 = norm2_spec(*self);
            lemma_square_le_isqrt(self.x as int, n2);
            lemma_square_le_isqrt(self.y as int, n2);
            lemma_square_le_isqrt(self.z as int, n2);
            lemma_unit_comp_in_scale(self.x as int, l as int);
            lemma_unit_comp_in_scale(self.y as int, l as int);
            lemma_unit_comp_in_scale(self.z as int, l as int);
        }
        Vector3D { x: ux as i64, y: uy as i64, z: uz as i64 }
    }
}

/// Rounding moves one squared unit-vector component away from its
/// exact value `(t/l)^2` by at most `(2 * SCALE + 1) * l^2 / l^2`:
/// stated over the integers, `l^2 q^2` stays within `(2 * SCALE + 1) *
/// l^2` of `t^2` whenever `|t| <= SCALE * l`.
proof fn lemma_unit_comp_sq(t: int, l: int)
    requires
        l >= 1,
        -(SCALE * l) <= t <= SCALE * l,
    ensures
        mag((l * l) * ((t / l) * (t / l)) - t * t) <= (2 * SCALE + 1) * (l * l),
{
    lemma_floor_div_bounds(t, l);
    let q = t / l;
    let r = t - q * l;
    assert((l * l) * (q * q) == t * t - (2 * t * r - r * r)) by (nonlinear_arith)
        requires
            t == q * l + r,
    ;
    assert(mag(2 * t * r - r * r) <= (2 * SCALE + 1) * (l * l)) by (nonlinear_arith)
        requires
            0 <= r < l,
            -(SCALE * l) <= t <= SCALE * l,
            l >= 1,
    ;
}

/// Normalizing any vector at least one world unit long yields a vector
/// of scaled length one, up to a vanishing tolerance: its squared
/// scaled length differs from `SCALE^2` by at most `9 * SCALE` (about
/// one part in seven thousand of the whole).
pub proof fn lemma_unit_vec_length(v: Vector3D)
    requires
        v.in_range(VEC_MAX as int),
        norm2_spec(v) >= SCALE * SCALE,
    ensures
        ({
            let l = isqrt_spec(norm2_spec(v));
            let ux = unit_comp_spec(v.x as int, l);
            let uy = unit_comp_spec(v.y as int, l);
            let uz = unit_comp_spec(v.z as int, l);
            mag(ux * ux + uy * uy + uz * uz - SCALE * SCALE) <= 9 * SCALE
        }),
{
    let n2 = norm2_spec(v);
    let l = isqrt_spec(n2);
    lemma_norm2_nonneg(v);
    lemma_isqrt_bounds(n2);
    lemma_square_le_isqrt(SCALE as int, n2);
    assert(l >= SCALE);
    lemma_square_le_isqrt(v.x as int, n2);
    lemma_square_le_isqrt(v.y as int, n2);
    lemma_square_le_isqrt(v.z as int, n2);

    let tx = v.x * SCALE;
    let ty = v.y * SCALE;
    let tz = v.z * SCALE;
    assert(-(SCALE * l) <= v.x * SCALE <= SCALE * l) by (nonlinear_arith)
        requires
            -l <= v.x <= l,
            l >= 1,
    ;
    assert(-(SCALE * l) <= v.y * SCALE <= SCALE * l) by (nonlinear_arith)
        requires
            -l <= v.y <= l,
            l >= 1,
    ;
    assert(-(SCALE * l) <= v.z * SCALE <= SCALE * l) by (nonlinear_arith)
        requires
            -l <= v.z <= l,
            l >= 1,
    ;
    lemma_unit_comp_sq(tx, l);
    lemma_unit_comp_sq(ty, l);
    lemma_unit_comp_sq(tz, l);
    let ux = unit_comp_spec(v.x as int, l);
    let uy = unit_comp_spec(v.y as int, l);
    let uz = unit_comp_spec(v.z as int, l);
    assert(ux == tx / l && uy == ty / l && uz == tz / l);

    // sum the three component errors
    assert(-(3 * ((2 * SCALE + 1) * (l * l))) <= (l * l) * (ux * ux + uy * uy + uz * uz) - (tx * tx
        + ty * ty + tz * tz) <= 3 * ((2 * SCALE + 1) * (l * l))) by (nonlinear_arith)
        requires
            -((2 * SCALE + 1) * (l * l)) <= (l * l) * (ux * ux) - tx * tx <= (2 * SCALE + 1) * (l
                * l),
            -((2 * SCALE + 1) * (l * l)) <= (l * l) * (uy * uy) - ty * ty <= (2 * SCALE + 1) * (l
                * l),
            -((2 * SCALE + 1) * (l * l)) <= (l * l) * (uz * uz) - tz * tz <= (2 * SCALE + 1) * (l
                * l),
    ;

    // the exact scaled squared length against SCALE^2 * l^2
    assert(tx * tx + ty * ty + tz * tz == (SCALE * SCALE) * n2) by (nonlinear_arith)
        requires
            tx == v.x * SCALE && ty == v.y * SCALE && tz == v.z * SCALE,
            n2 == v.x * v.x + v.y * v.y + v.z * v.z,
    ;
    assert(n2 <= l * l + 2 * l) by (nonlinear_arith)
        requires
            n2 < (l + 1) * (l + 1),
    ;
    assert((SCALE * SCALE) * (l * l) <= (SCALE * SCALE) * n2 && (SCALE * SCALE) * n2 <= (SCALE
        * SCALE) * (l * l) + (2 * SCALE) * (l * l)) by (nonlinear_arith)
        requires
            l * l <= n2,
            n2 <= l * l + 2 * l,
            SCALE <= l,
    ;
    assert(-((8 * SCALE + 3) * (l * l)) <= (l * l) * (ux * ux + uy * uy + uz * uz) - (l * l) * (
    SCALE * SCALE) <= (8 * SCALE + 3) * (l * l)) by (nonlinear_arith)
        requires
            -(3 * ((2 * SCALE + 1) * (l * l))) <= (l * l) * (ux * ux + uy * uy + uz * uz) - (SCALE
                * SCALE) * n2 <= 3 * ((2 * SCALE + 1) * (l * l)),
            (SCALE * SCALE) * (l * l) <= (SCALE * SCALE) * n2,
            (SCALE * SCALE) * n2 <= (SCALE * SCALE) * (l * l) + (2 * SCALE) * (l * l),
    ;
    assert(-(8 * SCALE + 3) <= ux * ux + uy * uy + uz * uz - SCALE * SCALE <= 8 * SCALE + 3)
        by (nonlinear_arith)
        requires
            -((8 * SCALE + 3) * (l * l)) <= (l * l) * (ux * ux + uy * uy + uz * uz) - (l * l) * (
            SCALE * SCALE) <= (8 * SCALE + 3) * (l * l),
            l >= 1,
    ;
}

/// A component no longer than the length divides down to at most one
/// unit of scale.
pub proof fn lemma_unit_comp_in_scale(c: int, l: int)
    requires
        l >= 1,
        mag(c) <= l,
    ensures
        -SCALE <= unit_comp_spec(c, l) <= SCALE,
{
    assert(c * SCALE <= l * SCALE && -(l * SCALE) <= c * SCALE) by (nonlinear_arith)
        requires
            l >= 1 && -l <= c <= l,
    ;
    lemma_div_is_ordered(c * SCALE, l * SCALE, l);
    lemma_div_is_ordered(-(l * SCALE), c * SCALE, l);
    lemma_div_multiples_vanish(SCALE as int, l);
    lemma_div_multiples_vanish(-(SCALE as int), l);
}

} // verus!
