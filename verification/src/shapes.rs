//! The primitives a scene can hold — spheres and planes — and their
//! exact intersection contracts.

use vstd::prelude::*;
use crate::algebra::{
    Point, Vector3D, dot_spec, norm2_spec, dot_3d, lemma_norm2_nonneg, lemma_dot_bound,
};
use crate::color::Color;
use vstd::arithmetic::div_mod::{
    lemma_div_is_ordered, lemma_div_multiples_vanish, lemma_fundamental_div_mod_converse_div,
};
use crate::math::{
    SCALE, COORD_MAX, VEC_MAX, mag, isqrt_spec, isqrt_u128, div_floor_i128,
    lemma_isqrt_bounds, lemma_isqrt_below, lemma_square_le_isqrt, lemma_div_mag_bound,
};
use crate::ray::Ray;

verus! {

/// The capability set every primitive answers: intersection test,
/// intersection distance, surface normal at the hit, base color and
/// reflectance.
pub trait Object {
    /// The shape's data is within the scene bounds.
    spec fn wf(&self) -> bool;

    /// Exact predicate: the ray's supporting line meets the shape the
    /// way the intersection test reports it.
    spec fn hit_spec(&self, ray: Ray) -> bool;

    /// When the distance computation reports a hit (it may decline a
    /// grazing hit that the plain test accepts).
    spec fn reports_spec(&self, ray: Ray) -> bool;

    /// The scaled along-ray distance reported for a hit.
    spec fn distance_spec(&self, ray: Ray) -> int;

    /// The shape's base color.
    spec fn color_spec(&self) -> Color;

    /// The shape's reflectance coefficient, at scale [`SCALE`].
    spec fn albedo_spec(&self) -> int;

    /// How the reported surface normal relates to the shape and ray.
    spec fn normal_spec(&self, ray: Ray, n: Vector3D) -> bool;

    /// Does the ray meet this shape?
    fn is_intersect(&self, ray: &Ray) -> (r: bool)
        requires
            self.wf(),
            ray.wf(),
            ray.direction.is_nonzero(),
        ensures
            r == self.hit_spec(*ray),
    ;

    /// Whether the ray hits, at which scaled distance, and with which
    /// base color.
    fn cal_intersect_distance(&self, ray: &Ray) -> (r: (bool, Option<i128>, Option<Color>))
        requires
            self.wf(),
            ray.wf(),
            ray.direction.is_nonzero(),
        ensures
            r.0 == self.reports_spec(*ray),
            r.0 ==> (r.1 matches Some(d) && d == self.distance_spec(*ray)),
            r.0 ==> (r.2 matches Some(c) && c == self.color_spec()),
            !r.0 ==> r.1 is None && r.2 is None,
    ;

    /// Surface normal at the reported hit (not normalized).
    fn normal2intersection(&self, ray: &Ray) -> (n: Vector3D)
        requires
            self.wf(),
            ray.wf(),
            ray.direction.is_nonzero(),
            self.reports_spec(*ray),
        ensures
            self.normal_spec(*ray, n),
            n.in_range(VEC_MAX as int),
    ;

    /// The reflectance coefficient.
    fn get_albedo(&self) -> (r: i64)
        requires
            self.wf(),
        ensures
            r == self.albedo_spec(),
            0 <= r <= SCALE,
    ;
}

/// A sphere: center, radius, base color and reflectance.
#[derive(Clone, Copy, Debug, PartialEq, Eq, Structural)]
pub struct Sphere {
    pub center: Point,
    pub radius: i64,
    pub color: Color,
    pub albedo: i64,
}

/// A plane given by a normal and a point it passes through, with base
/// color and reflectance.
#[derive(Clone, Copy, Debug, PartialEq, Eq, Structural)]
pub struct Plane {
    pub normal: Vector3D,
    pub pt: Point,
    pub color: Color,
    pub albedo: i64,
}

/// Squared scaled length of the displacement from the ray origin to the
/// sphere center; exact, at scale `SCALE * SCALE`.
pub open spec fn sphere_vv(s: Sphere, ray: Ray) -> int {
    let vx = s.center.x - ray.origin.x;
    let vy = s.center.y - ray.origin.y;
    let vz = s.center.z - ray.origin.z;
    vx * vx + vy * vy + vz * vz
}

/// Scalar product of the displacement to the center with the ray
/// direction; exact.
pub open spec fn sphere_vd(s: Sphere, ray: Ray) -> int {
    let vx = s.center.x - ray.origin.x;
    let vy = s.center.y - ray.origin.y;
    let vz = s.center.z - ray.origin.z;
    vx * ray.direction.x + vy * ray.direction.y + vz * ray.direction.z
}

/// Discriminant of the sphere-ray quadratic.  It is nonnegative exactly
/// when the perpendicular distance from the center to the ray's line is
/// at most the radius.
pub open spec fn sphere_disc_spec(s: Sphere, ray: Ray) -> int {
    s.radius * s.radius * norm2_spec(ray.direction) + sphere_vd(s, ray) * sphere_vd(s, ray)
        - sphere_vv(s, ray) * norm2_spec(ray.direction)
}

/// The sphere is hit exactly when the discriminant is nonnegative.
pub open spec fn sphere_hit_spec(s: Sphere, ray: Ray) -> bool {
    sphere_disc_spec(s, ray) >= 0
}

/// Scaled along-ray distance to the near intersection:
/// `|v| cos(theta) - sqrt(radius^2 - d^2)` carried out on scaled
/// integers, rounding down at each of the two divisions.
pub open spec fn sphere_distance_spec(s: Sphere, ray: Ray) -> int {
    let l = isqrt_spec(norm2_spec(ray.direction));
    sphere_vd(s, ray) / l - isqrt_spec(sphere_disc_spec(s, ray)) / l
}

/// Scalar product of the displacement from the ray origin to the
/// plane's anchor point with the plane normal; exact.
pub open spec fn plane_numer_spec(p: Plane, ray: Ray) -> int {
    let wx = p.pt.x - ray.origin.x;
    let wy = p.pt.y - ray.origin.y;
    let wz = p.pt.z - ray.origin.z;
    wx * p.normal.x + wy * p.normal.y + wz * p.normal.z
}

/// Scalar product of the ray direction with the plane normal; exact.
pub open spec fn plane_denom_spec(p: Plane, ray: Ray) -> int {
    dot_spec(ray.direction, p.normal)
}

/// Same-sign test: the plane is hit when the quotient of the two
/// scalar products is positive.  A ray parallel to the plane makes the
/// denominator zero and is a miss.
pub open spec fn plane_hit_spec(p: Plane, ray: Ray) -> bool {
    plane_numer_spec(p, ray) * plane_denom_spec(p, ray) > 0
}

/// Scaled along-ray distance to the plane: the point-to-plane distance
/// divided by the cosine of the angle between the unit normal and the
/// unit direction, with the normal's length cancelled exactly.
pub open spec fn plane_distance_spec(p: Plane, ray: Ray) -> int {
    (mag(plane_numer_spec(p, ray)) * isqrt_spec(norm2_spec(ray.direction))) / mag(
        plane_denom_spec(p, ray),
    )
}

/// The distance computation keeps a plane hit only when it clears one
/// scaled unit, guarding against self-intersection at grazing
/// incidence.
pub open spec fn plane_reports_spec(p: Plane, ray: Ray) -> bool {
    plane_hit_spec(p, ray) && plane_distance_spec(p, ray) >= 1
}

/// A reported sphere hit lies within `2^33` scaled units of the origin
/// in either direction along the ray.
pub proof fn lemma_sphere_distance_bound(s: Sphere, ray: Ray)
    requires
        s.wf(),
        ray.wf(),
        ray.direction.is_nonzero(),
        sphere_hit_spec(s, ray),
    ensures
        mag(sphere_distance_spec(s, ray)) < 0x2_0000_0000,
{
    let vx = s.center.x - ray.origin.x;
    let vy = s.center.y - ray.origin.y;
    let vz = s.center.z - ray.origin.z;
    let dx = ray.direction.x as int;
    let dy = ray.direction.y as int;
    let dz = ray.direction.z as int;
    let vv = sphere_vv(s, ray);
    let dd = norm2_spec(ray.direction);
    let vd = sphere_vd(s, ray);
    let disc = sphere_disc_spec(s, ray);
    let l = isqrt_spec(dd);
    let r = s.radius as int;

    lemma_norm2_nonneg(ray.direction);
    lemma_isqrt_bounds(dd);
    lemma_square_le_isqrt(1, dd);
    lemma_square_le_isqrt(dx, dd);
    lemma_square_le_isqrt(dy, dd);
    lemma_square_le_isqrt(dz, dd);
    assert(vv >= 0) by (nonlinear_arith)
        requires
            vv == vx * vx + vy * vy + vz * vz,
    ;

    // no direction component exceeds the scaled length, so the oblique
    // scalar product is at most the sum of the center offsets times it
    assert(-(0x9000_0000 * l) <= vd <= 0x9000_0000 * l) by (nonlinear_arith)
        requires
            vd == vx * dx + vy * dy + vz * dz,
            -0x3000_0000 <= vx <= 0x3000_0000,
            -0x3000_0000 <= vy <= 0x3000_0000,
            -0x3000_0000 <= vz <= 0x3000_0000,
            -l <= dx <= l,
            -l <= dy <= l,
            -l <= dz <= l,
            l >= 0,
    ;
    lemma_div_mag_bound(vd, l, 0x9000_0000);

    // the discriminant stays below a perfect square of the same order
    assert(disc < (r * (l + 1) + 0x9000_0000 * l) * (r * (l + 1) + 0x9000_0000 * l))
        by (nonlinear_arith)
        requires
            disc == r * r * dd + vd * vd - vv * dd,
            vv >= 0,
            dd >= 0,
            dd < (l + 1) * (l + 1),
            -(0x9000_0000 * l) <= vd <= 0x9000_0000 * l,
            r >= 1,
            l >= 1,
    ;
    assert(r * (l + 1) + 0x9000_0000 * l - 1 >= 0) by (nonlinear_arith)
        requires
            r >= 1,
            l >= 1,
    ;
    lemma_isqrt_below(disc, r * (l + 1) + 0x9000_0000 * l - 1);
    lemma_isqrt_bounds(disc);
    assert(r * (l + 1) + 0x9000_0000 * l - 1 <= (2 * r + 0x9000_0000) * l) by (nonlinear_arith)
        requires
            r >= 1,
            l >= 1,
    ;
    lemma_div_mag_bound(isqrt_spec(disc), l, 2 * r + 0x9000_0000);

    assert(mag(sphere_distance_spec(s, ray)) <= mag(vd / l) + mag(isqrt_spec(disc) / l));
}

impl Sphere {
    /// All data within the scene bounds: center coordinates and radius
    /// bounded, radius positive, reflectance and color channels within
    /// one unit of scale.
    pub open spec fn wf_spec(self) -> bool {
        self.center.in_range(COORD_MAX as int) && 1 <= self.radius <= COORD_MAX && 0
            <= self.albedo <= SCALE && self.color.wf()
    }
}

impl Plane {
    /// All data within the scene bounds; the normal must point
    /// somewhere.
    pub open spec fn wf_spec(self) -> bool {
        self.normal.in_range(COORD_MAX as int) && self.normal.is_nonzero() && self.pt.in_range(
            COORD_MAX as int,
        ) && 0 <= self.albedo <= SCALE && self.color.wf()
    }
}

impl Object for Sphere {
    open spec fn wf(&self) -> bool {
        self.wf_spec()
    }

    open spec fn hit_spec(&self, ray: Ray) -> bool {
        sphere_hit_spec(*self, ray)
    }

    open spec fn reports_spec(&self, ray: Ray) -> bool {
        sphere_hit_spec(*self, ray)
    }

    open spec fn distance_spec(&self, ray: Ray) -> int {
        sphere_distance_spec(*self, ray)
    }

    open spec fn color_spec(&self) -> Color {
        self.color
    }

    open spec fn albedo_spec(&self) -> int {
        self.albedo as int
    }

    open spec fn normal_spec(&self, ray: Ray, n: Vector3D) -> bool {
        let l = isqrt_spec(norm2_spec(ray.direction));
        let t = sphere_distance_spec(*self, ray);
        n.x == ray.origin.x - self.center.x + (t * ray.direction.x) / l && n.y == ray.origin.y
            - self.center.y + (t * ray.direction.y) / l && n.z == ray.origin.z - self.center.z + (t
            * ray.direction.z) / l
    }

    fn is_intersect(&self, ray: &Ray) -> (r: bool) {
        let (h, _d, _c) = self.cal_intersect_distance(ray);
        h
    }

    fn cal_intersect_distance(&self, ray: &Ray) -> (r: (bool, Option<i128>, Option<Color>)) {
        let v = Vector3D::a2b_vec(&ray.origin, &self.center);
        let vv = dot_3d(&v, &v);
        let dd = dot_3d(&ray.direction, &ray.direction);
        let vd = dot_3d(&v, &ray.direction);
        proof {
            lemma_dot_bound(v, v, 0x3000_0000);
            lemma_dot_bound(ray.direction, ray.direction, 0x3000_0000);
            lemma_dot_bound(v, ray.direction, 0x3000_0000);
            assert(0 <= self.radius * self.radius <= 0x100_0000_0000_0000) by (nonlinear_arith)
                requires
                    1 <= self.radius <= 0x1000_0000,
            ;
            assert(-0x2D9_0000_0000_0000_0000_0000_0000_0000 <= self.radius * self.radius * (
            dd as int) <= 0x2D9_0000_0000_0000_0000_0000_0000_0000
                && -0x2D9_0000_0000_0000_0000_0000_0000_0000 <= (vd as int) * (vd as int)
                <= 0x2D9_0000_0000_0000_0000_0000_0000_0000
                && -0x2D9_0000_0000_0000_0000_0000_0000_0000 <= (vv as int) * (dd as int)
                <= 0x2D9_0000_0000_0000_0000_0000_0000_0000) by (nonlinear_arith)
                requires
                    0 <= self.radius * self.radius <= 0x100_0000_0000_0000,
                    -0x1B00_0000_0000_0000 <= vv <= 0x1B00_0000_0000_0000,
                    -0x1B00_0000_0000_0000 <= dd <= 0x1B00_0000_0000_0000,
                    -0x1B00_0000_0000_0000 <= vd <= 0x1B00_0000_0000_0000,
            ;
        }
        let rr = (self.radius as i128) * (self.radius as i128);
        let disc = rr * dd + vd * vd - vv * dd;
        if disc < 0 {
            (false, None, None)
        } else {
            let l = ray.direction.length();
            proof {
                lemma_norm2_nonneg(ray.direction);
                lemma_square_le_isqrt(1, norm2_spec(ray.direction));
                lemma_isqrt_bounds(disc as int);
                lemma_isqrt_below(disc as int, 0x3fff_ffff_ffff_ffff);
                assert(mag(vd as int) <= mag(vd as int) * (l as int)) by (nonlinear_arith)
                    requires
                        l >= 1,
                ;
                lemma_div_mag_bound(vd as int, l as int, mag(vd as int));
                let sqd = isqrt_spec(disc as int);
                assert(mag(sqd) <= mag(sqd) * (l as int)) by (nonlinear_arith)
                    requires
                        l >= 1,
                        sqd >= 0,
                ;
                lemma_div_mag_bound(sqd, l as int, mag(sqd));
            }
            let q1 = div_floor_i128(vd, l as i128);
            let sq = isqrt_u128(disc as u128);
            let q2 = (sq / (l as u128)) as i128;
            let t = q1 - q2;
            (true, Some(t), Some(self.color))
        }
    }

    fn normal2intersection(&self, ray: &Ray) -> (n: Vector3D) {
        let (_h, dist, _c) = self.cal_intersect_distance(ray);
        let t: i128 = match dist {
            Some(d) => d,
            None => {
                proof {
                    assert(false);
                }
                0
            },
        };
        let l = ray.direction.length();
        proof {
            lemma_norm2_nonneg(ray.direction);
            lemma_square_le_isqrt(1, norm2_spec(ray.direction));
            lemma_sphere_distance_bound(*self, *ray);
            lemma_square_le_isqrt(ray.direction.x as int, norm2_spec(ray.direction));
            lemma_square_le_isqrt(ray.direction.y as int, norm2_spec(ray.direction));
            lemma_square_le_isqrt(ray.direction.z as int, norm2_spec(ray.direction));
            let li = isqrt_spec(norm2_spec(ray.direction));
            let tm = mag(t as int);
            assert(-(tm * li) <= t * ray.direction.x <= tm * li && -(tm * li) <= t
                * ray.direction.y <= tm * li && -(tm * li) <= t * ray.direction.z <= tm * li
                && tm * li < 0x2_0000_0000 * 0x8_0000_0000) by (nonlinear_arith)
                requires
                    -li <= ray.direction.x <= li,
                    -li <= ray.direction.y <= li,
                    -li <= ray.direction.z <= li,
                    -tm <= t <= tm,
                    0 <= tm < 0x2_0000_0000,
                    0 <= li <= 0x8_0000_0000,
            ;
            lemma_div_mag_bound(t * ray.direction.x, li, tm);
            lemma_div_mag_bound(t * ray.direction.y, li, tm);
            lemma_div_mag_bound(t * ray.direction.z, li, tm);
        }
        let ux = div_floor_i128(t * (ray.direction.x as i128), l as i128);
        let uy = div_floor_i128(t * (ray.direction.y as i128), l as i128);
        let uz = div_floor_i128(t * (ray.direction.z as i128), l as i128);
        Vector3D {
            x: ray.origin.x - self.center.x + ux as i64,
            y: ray.origin.y - self.center.y + uy as i64,
            z: ray.origin.z - self.center.z + uz as i64,
        }
    }

    fn get_albedo(&self) -> (r: i64) {
        self.albedo
    }
}

impl Object for Plane {
    open spec fn wf(&self) -> bool {
        self.wf_spec()
    }

    open spec fn hit_spec(&self, ray: Ray) -> bool {
        plane_hit_spec(*self, ray)
    }

    open spec fn reports_spec(&self, ray: Ray) -> bool {
        plane_reports_spec(*self, ray)
    }

    open spec fn distance_spec(&self, ray: Ray) -> int {
        plane_distance_spec(*self, ray)
    }

    open spec fn color_spec(&self) -> Color {
        self.color
    }

    open spec fn albedo_spec(&self) -> int {
        self.albedo as int
    }

    open spec fn normal_spec(&self, ray: Ray, n: Vector3D) -> bool {
        n == self.normal
    }

    fn is_intersect(&self, ray: &Ray) -> (r: bool) {
        let v = Vector3D::a2b_vec(&ray.origin, &self.pt);
        let numer = dot_3d(&v, &self.normal);
        let denom = dot_3d(&ray.direction, &self.normal);
        proof {
            lemma_dot_bound(v, self.normal, 0x3000_0000);
            lemma_dot_bound(ray.direction, self.normal, 0x3000_0000);
            assert(mag(numer * denom) <= 0x2D9_0000_0000_0000_0000_0000_0000_0000)
                by (nonlinear_arith)
                requires
                    mag(numer as int) <= 0x1B00_0000_0000_0000,
                    mag(denom as int) <= 0x1B00_0000_0000_0000,
            ;
        }
        numer * denom > 0
    }

    fn cal_intersect_distance(&self, ray: &Ray) -> (r: (bool, Option<i128>, Option<Color>)) {
        if !self.is_intersect(ray) {
            return (false, None, None);
        }
        let v = Vector3D::a2b_vec(&ray.origin, &self.pt);
        let numer = dot_3d(&v, &self.normal);
        let denom = dot_3d(&ray.direction, &self.normal);
        proof {
            lemma_dot_bound(v, self.normal, 0x3000_0000);
            lemma_dot_bound(ray.direction, self.normal, 0x3000_0000);
            if denom == 0 {
                assert(numer * denom == 0) by (nonlinear_arith)
                    requires
                        denom == 0,
                ;
            }
        }
        let l = ray.direction.length();
        let na = if numer < 0 {
            (-numer) as u128
        } else {
            numer as u128
        };
        let da = if denom < 0 {
            (-denom) as u128
        } else {
            denom as u128
        };
        proof {
            assert(na * (l as u128) <= 0x1B00_0000_0000_0000 * 0x8_0000_0000) by (nonlinear_arith)
                requires
                    na <= 0x1B00_0000_0000_0000,
                    l <= 0x8_0000_0000,
                    l >= 0,
            ;
            let num = (na * (l as u128)) as int;
            assert(mag(num) <= num * (da as int)) by (nonlinear_arith)
                requires
                    num >= 0,
                    da >= 1,
            ;
            lemma_div_mag_bound(num, da as int, num);
        }
        let q = (na * (l as u128)) / da;
        if q >= 1 {
            (true, Some(q as i128), Some(self.color))
        } else {
            (false, None, None)
        }
    }

    fn normal2intersection(&self, ray: &Ray) -> (n: Vector3D) {
        self.normal
    }

    fn get_albedo(&self) -> (r: i64) {
        self.albedo
    }
}

/// A scene primitive: the closed set of shapes a scene can own.
#[derive(Clone, Copy, Debug, PartialEq, Eq, Structural)]
pub enum Primitive {
    Sphere(Sphere),
    Plane(Plane),
}

impl Object for Primitive {
    open spec fn wf(&self) -> bool {
        match self {
            Primitive::Sphere(s) => s.wf(),
            Primitive::Plane(p) => p.wf(),
        }
    }

    open spec fn hit_spec(&self, ray: Ray) -> bool {
        match self {
            Primitive::Sphere(s) => s.hit_spec(ray),
            Primitive::Plane(p) => p.hit_spec(ray),
        }
    }

    open spec fn reports_spec(&self, ray: Ray) -> bool {
        match self {
            Primitive::Sphere(s) => s.reports_spec(ray),
            Primitive::Plane(p) => p.reports_spec(ray),
        }
    }

    open spec fn distance_spec(&self, ray: Ray) -> int {
        match self {
            Primitive::Sphere(s) => s.distance_spec(ray),
            Primitive::Plane(p) => p.distance_spec(ray),
        }
    }

    open spec fn color_spec(&self) -> Color {
        match self {
            Primitive::Sphere(s) => s.color_spec(),
            Primitive::Plane(p) => p.color_spec(),
        }
    }

    open spec fn albedo_spec(&self) -> int {
        match self {
            Primitive::Sphere(s) => s.albedo_spec(),
            Primitive::Plane(p) => p.albedo_spec(),
        }
    }

    open spec fn normal_spec(&self, ray: Ray, n: Vector3D) -> bool {
        match self {
            Primitive::Sphere(s) => s.normal_spec(ray, n),
            Primitive::Plane(p) => p.normal_spec(ray, n),
        }
    }

    fn is_intersect(&self, ray: &Ray) -> (r: bool) {
        match self {
            Primitive::Sphere(s) => s.is_intersect(ray),
            Primitive::Plane(p) => p.is_intersect(ray),
        }
    }

    fn cal_intersect_distance(&self, ray: &Ray) -> (r: (bool, Option<i128>, Option<Color>)) {
        match self {
            Primitive::Sphere(s) => s.cal_intersect_distance(ray),
            Primitive::Plane(p) => p.cal_intersect_distance(ray),
        }
    }

    fn normal2intersection(&self, ray: &Ray) -> (n: Vector3D) {
        match self {
            Primitive::Sphere(s) => s.normal2intersection(ray),
            Primitive::Plane(p) => p.normal2intersection(ray),
        }
    }

    fn get_albedo(&self) -> (r: i64) {
        match self {
            Primitive::Sphere(s) => s.get_albedo(),
            Primitive::Plane(p) => p.get_albedo(),
        }
    }
}

/// A sphere's distance computation reports exactly the hits its
/// intersection test accepts: the two answers always agree.
pub proof fn lemma_sphere_report_iff_hit(s: Sphere, ray: Ray)
    ensures
        s.reports_spec(ray) == s.hit_spec(ray),
{
}

/// A plane hit reported with a distance is always a hit of the plain
/// intersection test (the converse may fail at grazing incidence,
/// where the near-miss guard declines the hit).
pub proof fn lemma_plane_report_implies_hit(p: Plane, ray: Ray)
    ensures
        p.reports_spec(ray) ==> p.hit_spec(ray),
{
}

/// A ray whose closest approach to the sphere center exceeds the
/// radius misses: when the scaled square of the perpendicular distance
/// exceeds the scaled square of the radius, the intersection test is
/// false and no distance is reported.
pub proof fn lemma_far_ray_misses_sphere(s: Sphere, ray: Ray)
    requires
        sphere_vv(s, ray) * norm2_spec(ray.direction) - sphere_vd(s, ray) * sphere_vd(s, ray) > s.radius
            * s.radius * norm2_spec(ray.direction),
    ensures
        !sphere_hit_spec(s, ray),
        !s.reports_spec(ray),
{
}

/// A ray from outside a sphere whose direction is exactly the
/// displacement to the center hits it, and the reported distance is
/// the scaled center distance minus the radius, up to two units of
/// scale of rounding.
pub proof fn lemma_ray_at_center_hits(s: Sphere, ray: Ray)
    requires
        s.wf(),
        ray.wf(),
        ray.direction.x == s.center.x - ray.origin.x,
        ray.direction.y == s.center.y - ray.origin.y,
        ray.direction.z == s.center.z - ray.origin.z,
        ray.direction.is_nonzero(),
        sphere_vv(s, ray) > s.radius * s.radius,
    ensures
        sphere_hit_spec(s, ray),
        isqrt_spec(sphere_vv(s, ray)) - s.radius <= sphere_distance_spec(s, ray) <= isqrt_spec(
            sphere_vv(s, ray),
        ) - s.radius + 2,
{
    let vv = sphere_vv(s, ray);
    let dd = norm2_spec(ray.direction);
    let vd = sphere_vd(s, ray);
    let disc = sphere_disc_spec(s, ray);
    let r = s.radius as int;
    let lv = isqrt_spec(vv);

    assert(dd == vv && vd == vv);
    assert(disc == r * r * vv);
    lemma_norm2_nonneg(ray.direction);
    assert(vv >= 1);
    lemma_isqrt_bounds(vv);
    lemma_square_le_isqrt(1, vv);
    assert(lv >= 1);
    assert(r * r * vv >= 0) by (nonlinear_arith)
        requires
            r >= 1,
            vv >= 0,
    ;
    lemma_square_le_isqrt(r, vv);
    assert(r <= lv);

    // vv / lv lands within two of lv
    lemma_div_multiples_vanish(lv, lv);
    lemma_div_is_ordered(lv * lv, vv, lv);
    assert(lv * (lv + 2) == lv * lv + 2 * lv) by (nonlinear_arith);
    lemma_div_multiples_vanish(lv + 2, lv);
    assert(vv <= lv * lv + 2 * lv) by (nonlinear_arith)
        requires
            vv < (lv + 1) * (lv + 1),
    ;
    lemma_div_is_ordered(vv, lv * lv + 2 * lv, lv);
    assert(lv <= vv / lv <= lv + 2);

    // the square root of the discriminant divides down to the radius
    let sq = isqrt_spec(disc);
    assert((r * lv) * (r * lv) <= r * r * vv) by (nonlinear_arith)
        requires
            lv * lv <= vv,
            r >= 1,
            lv >= 1,
    ;
    lemma_square_le_isqrt(r * lv, disc);
    assert(r * r * vv < (r * (lv + 1)) * (r * (lv + 1))) by (nonlinear_arith)
        requires
            vv < (lv + 1) * (lv + 1),
            r >= 1,
            lv >= 1,
    ;
    assert(r * (lv + 1) - 1 >= 0) by (nonlinear_arith)
        requires
            r >= 1,
            lv >= 1,
    ;
    lemma_isqrt_below(disc, r * (lv + 1) - 1);
    assert(r * lv <= sq <= r * lv + r - 1) by (nonlinear_arith)
        requires
            r * lv <= sq,
            sq <= r * (lv + 1) - 1,
    ;
    lemma_fundamental_div_mod_converse_div(sq, lv, r, sq - r * lv);
    assert(sq / lv == r);
}

/// A ray lying in a plane — its direction perpendicular to the
/// normal — never reports a hit.
pub proof fn lemma_parallel_ray_misses_plane(p: Plane, ray: Ray)
    requires
        dot_spec(ray.direction, p.normal) == 0,
    ensures
        !plane_hit_spec(p, ray),
        !p.reports_spec(ray),
{
    let n = plane_numer_spec(p, ray);
    let d = plane_denom_spec(p, ray);
    assert(n * d == 0) by (nonlinear_arith)
        requires
            d == 0,
    ;
}

/// A well-formed primitive carries a well-formed base color and a
/// reflectance within one unit of scale.
pub proof fn lemma_primitive_color_wf(p: Primitive)
    requires
        p.wf(),
    ensures
        p.color_spec().wf(),
        0 <= p.albedo_spec() <= SCALE,
{
    match p {
        Primitive::Sphere(_s) => {
        },
        Primitive::Plane(_pl) => {
        },
    }
}

/// The components of the (unnormalized) surface normal a primitive
/// reports at its hit: for a sphere, the displacement from the center
/// to the point reached by walking the ray forward by the reported
/// distance; for a plane, its fixed normal.
pub open spec fn normal_comps_spec(p: Primitive, ray: Ray) -> (int, int, int) {
    match p {
        Primitive::Sphere(s) => {
            let l = isqrt_spec(norm2_spec(ray.direction));
            let t = sphere_distance_spec(s, ray);
            (
                ray.origin.x - s.center.x + (t * ray.direction.x) / l,
                ray.origin.y - s.center.y + (t * ray.direction.y) / l,
                ray.origin.z - s.center.z + (t * ray.direction.z) / l,
            )
        },
        Primitive::Plane(pl) => (pl.normal.x as int, pl.normal.y as int, pl.normal.z as int),
    }
}

} // verus!
