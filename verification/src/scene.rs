//! Scenes: the primitive collection, the lights, and the resolver that
//! turns a ray into a shaded color.

use vstd::prelude::*;
use vstd::arithmetic::div_mod::{lemma_div_is_ordered, lemma_div_pos_is_pos};
use crate::algebra::{Point, Vector3D, dot_3d, lemma_dot_bound};
use crate::color::Color;
use crate::math::{
    SCALE, PI_SCALED, COORD_MAX, VEC_MAX, mag, isqrt_spec, div_floor_i128, lemma_div_mag_bound,
};
use crate::ray::Ray;
use crate::shapes::{Object, Primitive, normal_comps_spec};

verus! {

/// A directional light: a direction pointing from the light toward the
/// scene, a color, and a nonnegative intensity at scale [`SCALE`].
#[derive(Clone, Copy, Debug, PartialEq, Eq, Structural)]
pub struct LightSrc {
    pub direction: Vector3D,
    pub color: Color,
    pub intensity: i64,
}

impl LightSrc {
    /// Light data within the scene bounds; the direction must point
    /// somewhere.
    pub open spec fn wf(self) -> bool {
        self.direction.in_range(COORD_MAX as int) && self.direction.is_nonzero() && 0
            <= self.intensity <= COORD_MAX && self.color.wf()
    }
}

/// A scene: image dimensions, projection, the primitives it owns, the
/// lights, and the camera position.  The camera looks down the negative
/// z axis.
pub struct Scene {
    pub width: u32,
    pub height: u32,
    /// Tangent of half the field of view, at scale [`SCALE`]; positive
    /// for any field of view strictly between 0 and 180 degrees.
    pub fov_scale: i64,
    pub spheres: Vec<Primitive>,
    pub lights: Vec<LightSrc>,
    pub camera_pos: Point,
}

impl Scene {
    /// A renderable scene: positive pixel dimensions, a positive
    /// projection scale, and every primitive and light within bounds.
    pub open spec fn wf(self) -> bool {
        self.width >= 1 && self.height >= 1 && 1 <= self.fov_scale <= COORD_MAX
            && self.camera_pos.in_range(COORD_MAX as int) && (forall|i: int|
            0 <= i < self.spheres@.len() ==> #[trigger] self.spheres@[i].wf()) && (forall|i: int|
            0 <= i < self.lights@.len() ==> #[trigger] self.lights@[i].wf()) && self.lights@.len()
            <= 0x10000
    }
}

/// The unit vector of the triple `(x, y, z)` at scale [`SCALE`],
/// rounding down componentwise; the zero triple stays zero.
pub open spec fn unit3_spec(x: int, y: int, z: int) -> (int, int, int) {
    if x == 0 && y == 0 && z == 0 {
        (0, 0, 0)
    } else {
        let l = isqrt_spec(x * x + y * y + z * z);
        ((x * SCALE) / l, (y * SCALE) / l, (z * SCALE) / l)
    }
}

/// One light's contribution to the diffuse factor at a surface with
/// unit normal `nu` and reflectance `albedo`: the negated projection of
/// the light's unit direction on the normal, times the intensity,
/// times `albedo / pi`.
pub open spec fn light_term_spec(lt: LightSrc, nu: (int, int, int), albedo: int) -> int {
    let lu = unit3_spec(lt.direction.x as int, lt.direction.y as int, lt.direction.z as int);
    let d = lu.0 * nu.0 + lu.1 * nu.1 + lu.2 * nu.2;
    let power = -((lt.intensity * d) / (SCALE * SCALE));
    let reflection = (albedo * SCALE) / (PI_SCALED as int);
    (power * reflection) / (SCALE as int)
}

/// The summed diffuse factor over a light list, at scale [`SCALE`].
/// Negative sums are kept as they are: a surface facing away from every
/// light darkens rather than clamping to black.
pub open spec fn factor_spec(lights: Seq<LightSrc>, nu: (int, int, int), albedo: int) -> int
    decreases lights.len(),
{
    if lights.len() == 0 {
        0
    } else {
        factor_spec(lights.drop_last(), nu, albedo) + light_term_spec(lights.last(), nu, albedo)
    }
}

/// The nearest positive reported hit over the primitive list: its index
/// and its scaled distance.  Ties keep the earliest primitive, and
/// hits at nonpositive distance (behind the origin) are ignored.
pub open spec fn nearest_hit_spec(prims: Seq<Primitive>, ray: Ray) -> Option<(int, int)>
    decreases prims.len(),
{
    if prims.len() == 0 {
        None
    } else {
        let prev = nearest_hit_spec(prims.drop_last(), ray);
        let i = prims.len() - 1;
        let p = prims.last();
        if p.reports_spec(ray) && p.distance_spec(ray) > 0 && (match prev {
            Option::None => true,
            Option::Some(b) => p.distance_spec(ray) < b.1,
        }) {
            Some((i as int, p.distance_spec(ray)))
        } else {
            prev
        }
    }
}

/// The color the resolver yields for a ray, as a triple of scaled
/// channels: black when nothing is hit, otherwise the selected
/// primitive's base color scaled by the summed diffuse factor at its
/// surface normal.
pub open spec fn resolve_spec(prims: Seq<Primitive>, lights: Seq<LightSrc>, ray: Ray) -> (
    int,
    int,
    int,
) {
    match nearest_hit_spec(prims, ray) {
        Option::None => (0, 0, 0),
        Option::Some(b) => {
            let p = prims[b.0];
            let nc = normal_comps_spec(p, ray);
            let nu = unit3_spec(nc.0, nc.1, nc.2);
            let f = factor_spec(lights, nu, p.albedo_spec());
            (
                (p.color_spec().red * f) / (SCALE as int),
                (p.color_spec().green * f) / (SCALE as int),
                (p.color_spec().blue * f) / (SCALE as int),
            )
        },
    }
}

/// What the nearest-hit selection guarantees: the selected index is a
/// positive reported hit at minimal distance, earlier equal hits win,
/// and nothing is selected only when no positive reported hit exists.
pub proof fn lemma_nearest_hit_props(prims: Seq<Primitive>, ray: Ray)
    ensures
        nearest_hit_spec(prims, ray) matches Some(b) ==> 0 <= b.0 < prims.len()
            && prims[b.0].reports_spec(ray) && b.1 == prims[b.0].distance_spec(ray) && b.1 > 0,
        nearest_hit_spec(prims, ray) matches Some(b) ==> (forall|j: int|
            0 <= j < prims.len() && #[trigger] prims[j].reports_spec(ray)
                && prims[j].distance_spec(ray) > 0 ==> if j < b.0 {
                b.1 < prims[j].distance_spec(ray)
            } else {
                b.1 <= prims[j].distance_spec(ray)
            }),
        nearest_hit_spec(prims, ray) is None ==> (forall|j: int|
            0 <= j < prims.len() && #[trigger] prims[j].reports_spec(ray)
                ==> prims[j].distance_spec(ray) <= 0),
    decreases prims.len(),
{
    if prims.len() > 0 {
        lemma_nearest_hit_props(prims.drop_last(), ray);
        assert(forall|j: int|
            0 <= j < prims.len() - 1 ==> prims.drop_last()[j] == #[trigger] prims[j]);
    }
}

/// Among exactly two positive forward hits the nearer one is selected,
/// whichever order the list gives them in.
pub proof fn lemma_nearer_primitive_wins(a: Primitive, b: Primitive, ray: Ray)
    requires
        a.reports_spec(ray),
        a.distance_spec(ray) > 0,
        b.reports_spec(ray),
        b.distance_spec(ray) > 0,
        a.distance_spec(ray) < b.distance_spec(ray),
    ensures
        nearest_hit_spec(seq![a, b], ray) == Some((0int, a.distance_spec(ray))),
        nearest_hit_spec(seq![b, a], ray) == Some((1int, a.distance_spec(ray))),
{
    let s1 = seq![a, b];
    let s2 = seq![b, a];
    let e = Seq::<Primitive>::empty();
    assert(nearest_hit_spec(e, ray) is None);
    assert(seq![a].drop_last() =~= e);
    assert(seq![b].drop_last() =~= e);
    assert(seq![a].last() == a && seq![b].last() == b);
    assert(nearest_hit_spec(seq![a], ray) == Some((0int, a.distance_spec(ray))));
    assert(nearest_hit_spec(seq![b], ray) == Some((0int, b.distance_spec(ray))));
    assert(s1.drop_last() =~= seq![a]);
    assert(s2.drop_last() =~= seq![b]);
    assert(s1.last() == b && s2.last() == a);
    assert(nearest_hit_spec(s1, ray) == Some((0int, a.distance_spec(ray))));
    assert(nearest_hit_spec(s2, ray) == Some((1int, a.distance_spec(ray))));
}

/// With a scene of exactly two primitives that both report positive
/// forward hits, the resolver's color is the nearer one's, whichever
/// order the list gives them in.
pub proof fn lemma_nearer_color_wins(a: Primitive, b: Primitive, lights: Seq<LightSrc>, ray: Ray)
    requires
        a.reports_spec(ray),
        a.distance_spec(ray) > 0,
        b.reports_spec(ray),
        b.distance_spec(ray) > 0,
        a.distance_spec(ray) < b.distance_spec(ray),
    ensures
        resolve_spec(seq![a, b], lights, ray) == resolve_spec(seq![b, a], lights, ray),
        ({
            let nc = normal_comps_spec(a, ray);
            let nu = unit3_spec(nc.0, nc.1, nc.2);
            let f = factor_spec(lights, nu, a.albedo_spec());
            resolve_spec(seq![a, b], lights, ray) == (
                (a.color_spec().red * f) / (SCALE as int),
                (a.color_spec().green * f) / (SCALE as int),
                (a.color_spec().blue * f) / (SCALE as int),
            )
        }),
{
    lemma_nearer_primitive_wins(a, b, ray);
    assert(seq![a, b][0] == a && seq![b, a][1] == a);
}

/// Every light's diffuse term is small when the unit vectors really
/// are within one unit of scale.
proof fn lemma_light_term_bound(lt: LightSrc, nu: (int, int, int), albedo: int)
    requires
        lt.wf(),
        -SCALE <= nu.0 <= SCALE,
        -SCALE <= nu.1 <= SCALE,
        -SCALE <= nu.2 <= SCALE,
        0 <= albedo <= SCALE,
    ensures
        mag(light_term_spec(lt, nu, albedo)) <= 0x1000_0000,
{
    let lu = unit3_spec(lt.direction.x as int, lt.direction.y as int, lt.direction.z as int);
    let d = lu.0 * nu.0 + lu.1 * nu.1 + lu.2 * nu.2;
    let power = -((lt.intensity * d) / (SCALE * SCALE));
    let reflection = (albedo * SCALE) / (PI_SCALED as int);
    lemma_unit3_in_scale(lt.direction.x as int, lt.direction.y as int, lt.direction.z as int);
    assert(-(3 * SCALE * SCALE) <= d <= 3 * SCALE * SCALE) by (nonlinear_arith)
        requires
            d == lu.0 * nu.0 + lu.1 * nu.1 + lu.2 * nu.2,
            -SCALE <= lu.0 <= SCALE && -SCALE <= lu.1 <= SCALE && -SCALE <= lu.2 <= SCALE,
            -SCALE <= nu.0 <= SCALE && -SCALE <= nu.1 <= SCALE && -SCALE <= nu.2 <= SCALE,
    ;
    assert(-(0x3000_0000 * (SCALE * SCALE)) <= lt.intensity * d <= 0x3000_0000 * (SCALE * SCALE))
        by (nonlinear_arith)
        requires
            0 <= lt.intensity <= 0x1000_0000,
            -(3 * SCALE * SCALE) <= d <= 3 * SCALE * SCALE,
    ;
    lemma_div_mag_bound(lt.intensity * d, SCALE * SCALE, 0x3000_0000);
    lemma_div_pos_is_pos(albedo * SCALE, PI_SCALED as int);
    lemma_div_is_ordered(albedo * SCALE, SCALE * SCALE, PI_SCALED as int);
    assert((SCALE * SCALE) / (PI_SCALED as int) == 20860);
    assert(-(0x1000_0000 * SCALE) <= power * reflection <= 0x1000_0000 * SCALE)
        by (nonlinear_arith)
        requires
            -0x3000_0000 <= power <= 0x3000_0000,
            0 <= reflection <= 20860,
    ;
    lemma_div_mag_bound(power * reflection, SCALE as int, 0x1000_0000);
}

/// The unit vector of an in-bounds triple stays within one unit of
/// scale in every component.
proof fn lemma_unit3_in_scale(x: int, y: int, z: int)
    requires
        -(VEC_MAX as int) <= x <= VEC_MAX as int,
        -(VEC_MAX as int) <= y <= VEC_MAX as int,
        -(VEC_MAX as int) <= z <= VEC_MAX as int,
    ensures
        ({
            let u = unit3_spec(x, y, z);
            -SCALE <= u.0 <= SCALE && -SCALE <= u.1 <= SCALE && -SCALE <= u.2 <= SCALE
        }),
{
    if !(x == 0 && y == 0 && z == 0) {
        let n2 = x * x + y * y + z * z;
        assert(x * x >= 0 && y * y >= 0 && z * z >= 0 && x * x <= n2 && y * y <= n2 && z * z <= n2
            && n2 >= 1) by (nonlinear_arith)
            requires
                !(x == 0 && y == 0 && z == 0),
                n2 == x * x + y * y + z * z,
        ;
        crate::math::lemma_square_le_isqrt(x, n2);
        crate::math::lemma_square_le_isqrt(y, n2);
        crate::math::lemma_square_le_isqrt(z, n2);
        crate::math::lemma_square_le_isqrt(1, n2);
        let l = isqrt_spec(n2);
        crate::algebra::lemma_unit_comp_in_scale(x, l);
        crate::algebra::lemma_unit_comp_in_scale(y, l);
        crate::algebra::lemma_unit_comp_in_scale(z, l);
    }
}

impl Scene {
    /// Resolve a ray against the scene: find the nearest positive
    /// reported hit and shade its base color by the summed diffuse
    /// factor over all lights; a ray that hits nothing keeps the black
    /// background.
    pub fn interact_spheres(&self, ray: Ray) -> (r: Color)
        requires
            self.wf(),
            ray.wf(),
            ray.direction.is_nonzero(),
        ensures
            nearest_hit_spec(self.spheres@, ray) is None ==> r == (Color {
                red: 0,
                green: 0,
                blue: 0,
            }),
            nearest_hit_spec(self.spheres@, ray) matches Some(b) ==> ({
                let p = self.spheres@[b.0];
                let nc = normal_comps_spec(p, ray);
                let nu = unit3_spec(nc.0, nc.1, nc.2);
                let f = factor_spec(self.lights@, nu, p.albedo_spec());
                r.red == (p.color_spec().red * f) / (SCALE as int) && r.green == (
                p.color_spec().green * f) / (SCALE as int) && r.blue == (p.color_spec().blue * f)
                    / (SCALE as int)
            }),
            self.spheres@.len() == 0 ==> r == (Color { red: 0, green: 0, blue: 0 }),
            (r.red as int, r.green as int, r.blue as int) == resolve_spec(
                self.spheres@,
                self.lights@,
                ray,
            ),
    {
        let mut pixel = Color { red: 0, green: 0, blue: 0 };
        let mut min_dist: i128 = 0;
        let mut hit_index: usize = 0;
        let mut is_hit = false;
        let n = self.spheres.len();
        let mut i: usize = 0;
        while i < n
            invariant
                self.wf(),
                ray.wf(),
                ray.direction.is_nonzero(),
                n == self.spheres@.len(),
                i <= n,
                !is_hit ==> nearest_hit_spec(self.spheres@.subrange(0, i as int), ray) is None,
                is_hit ==> hit_index < i && nearest_hit_spec(self.spheres@.subrange(0, i as int), ray)
                    == Some((hit_index as int, min_dist as int)),
                is_hit ==> pixel == self.spheres@[hit_index as int].color_spec(),
                !is_hit ==> pixel == (Color { red: 0, green: 0, blue: 0 }),
            decreases n - i,
        {
            let prim = self.spheres[i];
            let (hit, dist_opt, c_opt) = prim.cal_intersect_distance(&ray);
            proof {
                assert(self.spheres@.subrange(0, i as int + 1).drop_last() =~= self.spheres@
                    .subrange(0, i as int));
                assert(self.spheres@.subrange(0, i as int + 1).last() == self.spheres@[i as int]);
            }
            if hit {
                let d = match dist_opt {
                    Some(d) => d,
                    None => {
                        proof {
                            assert(false);
                        }
                        0
                    },
                };
                if d > 0 && (!is_hit || d < min_dist) {
                    is_hit = true;
                    hit_index = i;
                    pixel = match c_opt {
                        Some(c) => c,
                        None => {
                            proof {
                                assert(false);
                            }
                            pixel
                        },
                    };
                    min_dist = d;
                }
            }
            i += 1;
        }
        proof {
            assert(self.spheres@.subrange(0, n as int) =~= self.spheres@);
        }
        if is_hit {
            let prim = self.spheres[hit_index];
            proof {
                lemma_nearest_hit_props(self.spheres@, ray);
                assert(self.spheres@[hit_index as int].wf());
            }
            let normal = prim.normal2intersection(&ray);
            let nu = if normal.x == 0 && normal.y == 0 && normal.z == 0 {
                Vector3D { x: 0, y: 0, z: 0 }
            } else {
                normal.unit_vec()
            };
            let alb = prim.get_albedo();
            proof {
                let nc = normal_comps_spec(self.spheres@[hit_index as int], ray);
                assert(normal.x == nc.0 && normal.y == nc.1 && normal.z == nc.2);
                assert((nu.x as int, nu.y as int, nu.z as int) == unit3_spec(nc.0, nc.1, nc.2));
                assert(nu.in_range(SCALE as int));
            }
            let mut factor: i128 = 0;
            let m = self.lights.len();
            let mut j: usize = 0;
            while j < m
                invariant
                    self.wf(),
                    m == self.lights@.len(),
                    j <= m,
                    nu.in_range(SCALE as int),
                    0 <= alb <= SCALE,
                    factor == factor_spec(
                        self.lights@.subrange(0, j as int),
                        (nu.x as int, nu.y as int, nu.z as int),
                        alb as int,
                    ),
                    mag(factor as int) <= (j as int) * 0x1000_0000,
                decreases m - j,
            {
                proof {
                    assert(self.lights@[j as int].wf());
                }
                let lt = self.lights[j];
                let lu = lt.direction.unit_vec();
                let d = dot_3d(&lu, &nu);
                proof {
                    assert(self.lights@.subrange(0, j as int + 1).drop_last() =~= self.lights@
                        .subrange(0, j as int));
                    assert(self.lights@.subrange(0, j as int + 1).last() == self.lights@[j as int]);
                    lemma_dot_bound(lu, nu, SCALE as int);
                    assert(-(0x3000_0000 * (SCALE * SCALE)) <= lt.intensity * (d as int)
                        <= 0x3000_0000 * (SCALE * SCALE)) by (nonlinear_arith)
                        requires
                            0 <= lt.intensity <= 0x1000_0000,
                            -(3 * SCALE * SCALE) <= d <= 3 * SCALE * SCALE,
                    ;
                    lemma_div_mag_bound(lt.intensity * (d as int), SCALE * SCALE, 0x3000_0000);
                }
                let pw = -div_floor_i128(
                    (lt.intensity as i128) * d,
                    (SCALE as i128) * (SCALE as i128),
                );
                let rf = div_floor_i128((alb as i128) * (SCALE as i128), PI_SCALED as i128);
                proof {
                    lemma_div_pos_is_pos(alb * SCALE, PI_SCALED as int);
                    lemma_div_is_ordered(alb * SCALE, SCALE * SCALE, PI_SCALED as int);
                    assert((SCALE * SCALE) / (PI_SCALED as int) == 20860);
                    assert(-(0x1000_0000 * SCALE) <= (pw as int) * (rf as int) <= 0x1000_0000
                        * SCALE) by (nonlinear_arith)
                        requires
                            -0x3000_0000 <= pw <= 0x3000_0000,
                            0 <= rf <= 20860,
                    ;
                    lemma_div_mag_bound((pw as int) * (rf as int), SCALE as int, 0x1000_0000);
                    lemma_light_term_bound(
                        self.lights@[j as int],
                        (nu.x as int, nu.y as int, nu.z as int),
                        alb as int,
                    );
                }
                let term = div_floor_i128(pw * rf, SCALE as i128);
                factor = factor + term;
                j += 1;
            }
            proof {
                assert(self.lights@.subrange(0, m as int) =~= self.lights@);
                assert(self.spheres@[hit_index as int].wf());
                crate::shapes::lemma_primitive_color_wf(self.spheres@[hit_index as int]);
                assert(-(0x1000_0000_0000 * SCALE) <= (pixel.red as int) * (factor as int)
                    <= 0x1000_0000_0000 * SCALE && -(0x1000_0000_0000 * SCALE) <= (
                pixel.green as int) * (factor as int) <= 0x1000_0000_0000 * SCALE && -(
                0x1000_0000_0000 * SCALE) <= (pixel.blue as int) * (factor as int)
                    <= 0x1000_0000_0000 * SCALE) by (nonlinear_arith)
                    requires
                        0 <= pixel.red <= SCALE && 0 <= pixel.green <= SCALE && 0 <= pixel.blue
                            <= SCALE,
                        -0x1000_0000_0000 <= factor <= 0x1000_0000_0000,
                ;
                lemma_div_mag_bound(
                    (pixel.red as int) * (factor as int),
                    SCALE as int,
                    0x1000_0000_0000,
                );
                lemma_div_mag_bound(
                    (pixel.green as int) * (factor as int),
                    SCALE as int,
                    0x1000_0000_0000,
                );
                lemma_div_mag_bound(
                    (pixel.blue as int) * (factor as int),
                    SCALE as int,
                    0x1000_0000_0000,
                );
            }
            Color {
                red: div_floor_i128((pixel.red as i128) * factor, SCALE as i128) as i64,
                green: div_floor_i128((pixel.green as i128) * factor, SCALE as i128) as i64,
                blue: div_floor_i128((pixel.blue as i128) * factor, SCALE as i128) as i64,
            }
        } else {
            pixel
        }
    }
}

} // verus!
