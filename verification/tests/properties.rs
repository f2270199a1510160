use ray_tracer::{Color, LightSrc, Object, Plane, Point, Primitive, Ray, Scene, Sphere, Vector3D};
use ray_tracer::algebra::{cross_3d, dot_3d};

// One world unit in the library's fixed-point representation.
const S: i64 = 65536;

fn ray_down_z() -> Ray {
    Ray {
        origin: Point { x: 0, y: 0, z: 0 },
        direction: Vector3D { x: 0, y: 0, z: -S },
    }
}

fn gray(c: i64) -> Color {
    Color { red: c, green: c, blue: c }
}

fn sphere_at(x: i64, y: i64, z: i64, radius: i64, color: Color) -> Sphere {
    Sphere { center: Point { x, y, z }, radius, color, albedo: 32768 }
}

#[test]
fn ray_toward_center_hits_at_center_distance_minus_radius() {
    // camera at the origin, sphere five units down the axis, direction
    // exactly the displacement to the center: the hit distance is the
    // center distance minus the radius
    let ray = Ray {
        origin: Point { x: 0, y: 0, z: 0 },
        direction: Vector3D { x: 0, y: 0, z: -5 * S },
    };
    let sphere = sphere_at(0, 0, -5 * S, S, gray(S));
    assert!(sphere.is_intersect(&ray));
    let (hit, dist, color) = sphere.cal_intersect_distance(&ray);
    assert!(hit);
    assert_eq!(dist.unwrap(), 4 * S as i128);
    assert_eq!(color.unwrap(), gray(S));
}

#[test]
fn closest_approach_beyond_radius_misses() {
    // the ray passes three units above the sphere center; the radius is
    // one unit, so there is no hit and no distance
    let ray = ray_down_z();
    let sphere = sphere_at(0, 3 * S, -5 * S, S, gray(S));
    assert!(!sphere.is_intersect(&ray));
    let (hit, dist, color) = sphere.cal_intersect_distance(&ray);
    assert!(!hit);
    assert!(dist.is_none());
    assert!(color.is_none());
}

#[test]
fn tangent_ray_reports_hit() {
    // the ray grazes the sphere exactly at the radius: a hit with zero
    // chord, at the distance of the tangent point
    let ray = ray_down_z();
    let sphere = sphere_at(0, S, -5 * S, S, gray(S));
    assert!(sphere.is_intersect(&ray));
    let (hit, dist, _) = sphere.cal_intersect_distance(&ray);
    assert!(hit);
    assert_eq!(dist.unwrap(), 5 * S as i128);
}

#[test]
fn sphere_behind_origin_reports_negative_distance() {
    // the intersection routine itself does not filter hits behind the
    // origin: the reported distance is negative, and the resolver is
    // the one that ignores it
    let ray = ray_down_z();
    let sphere = sphere_at(0, 0, 5 * S, S, gray(S));
    let (hit, dist, _) = sphere.cal_intersect_distance(&ray);
    assert!(hit);
    assert_eq!(dist.unwrap(), -6 * S as i128);

    let scene = Scene {
        width: 1,
        height: 1,
        fov_scale: S,
        spheres: vec![Primitive::Sphere(sphere)],
        lights: vec![],
        camera_pos: Point { x: 0, y: 0, z: 0 },
    };
    assert_eq!(scene.interact_spheres(ray_down_z()), gray(0));
}

#[test]
fn sphere_at_the_far_edge_of_the_scene() {
    // the largest coordinates the scene admits still intersect exactly:
    // a unit sphere 4096 world units down the axis
    let ray = ray_down_z();
    let far = 268435456; // 4096 * S, the coordinate bound
    let sphere = sphere_at(0, 0, -far, S, gray(S));
    let (hit, dist, _) = sphere.cal_intersect_distance(&ray);
    assert!(hit);
    assert_eq!(dist.unwrap(), (far - S) as i128);
}

#[test]
fn parallel_ray_misses_plane() {
    // the direction is perpendicular to the plane normal: no hit may be
    // reported, guarding the division by a vanishing cosine
    let ray = ray_down_z();
    let plane = Plane {
        normal: Vector3D { x: 0, y: S, z: 0 },
        pt: Point { x: 0, y: -S, z: 0 },
        color: gray(S),
        albedo: 32768,
    };
    assert!(!plane.is_intersect(&ray));
    let (hit, dist, color) = plane.cal_intersect_distance(&ray);
    assert!(!hit);
    assert!(dist.is_none());
    assert!(color.is_none());
}

#[test]
fn grazing_plane_hit_is_declined() {
    // the along-ray distance rounds below one scaled unit: the plain
    // test accepts the hit but the distance computation declines it
    let plane = Plane {
        normal: Vector3D { x: 3, y: 0, z: 4 },
        pt: Point { x: 1, y: 0, z: 0 },
        color: gray(S),
        albedo: 32768,
    };
    let ray = Ray {
        origin: Point { x: 0, y: 0, z: 0 },
        direction: Vector3D { x: 0, y: 0, z: S },
    };
    assert!(plane.is_intersect(&ray));
    let (hit, dist, _) = plane.cal_intersect_distance(&ray);
    assert!(!hit);
    assert!(dist.is_none());
}

#[test]
fn plane_distance_concrete() {
    // plane with normal (0, 1, 1) through (0, 0, -5), ray down the z
    // axis: the along-ray distance to the plane y + z = -5 is five
    // world units
    let ray = ray_down_z();
    let plane = Plane {
        normal: Vector3D { x: 0, y: S, z: S },
        pt: Point { x: 0, y: 0, z: -5 * S },
        color: gray(S),
        albedo: 32768,
    };
    let (hit, dist, _) = plane.cal_intersect_distance(&ray);
    assert!(hit);
    assert_eq!(dist.unwrap(), 5 * S as i128);
}

fn two_sphere_scene(prims: Vec<Primitive>) -> Scene {
    Scene {
        width: 2,
        height: 2,
        fov_scale: S,
        spheres: prims,
        lights: vec![
            LightSrc {
                direction: Vector3D { x: 0, y: 0, z: -S },
                color: gray(S),
                intensity: S,
            },
        ],
        camera_pos: Point { x: 0, y: 0, z: 0 },
    }
}

#[test]
fn nearer_sphere_wins_regardless_of_order() {
    let near = Primitive::Sphere(sphere_at(0, 0, -5 * S, S, Color { red: S, green: 0, blue: 0 }));
    let far = Primitive::Sphere(sphere_at(0, 0, -10 * S, S, Color { red: 0, green: S, blue: 0 }));
    let a = two_sphere_scene(vec![near, far]).interact_spheres(ray_down_z());
    let b = two_sphere_scene(vec![far, near]).interact_spheres(ray_down_z());
    assert_eq!(a, b);
    // the red (nearer) sphere is shaded, the green one never shows:
    // the unit normal at the hit is (0, 0, 1), the light shines down
    // the negative z axis with intensity one, and the albedo is half
    assert_eq!(a, Color { red: 10430, green: 0, blue: 0 });
}

#[test]
fn empty_scene_resolves_to_background() {
    let scene = Scene {
        width: 4,
        height: 4,
        fov_scale: S,
        spheres: vec![],
        lights: vec![],
        camera_pos: Point { x: 0, y: 0, z: 0 },
    };
    for y in 0..4u32 {
        for x in 0..4u32 {
            let ray = Ray::prime_ray_on_sensor(x, y, &scene);
            assert_eq!(scene.interact_spheres(ray), gray(0));
        }
    }
}

#[test]
fn unit_vec_has_unit_length_within_tolerance() {
    let vectors = [
        (S, 0, 0),
        (3 * S, 4 * S, 0),
        (S, S, S),
        (-2 * S, 5 * S, -7 * S),
        (1 << 20, 1 << 21, 1 << 22),
        (-S, -S, 4 * S),
        (123 * S, -45 * S, 67 * S),
    ];
    for &(x, y, z) in vectors.iter() {
        let v = Vector3D { x, y, z };
        let u = v.unit_vec();
        let n2 = u.x * u.x + u.y * u.y + u.z * u.z;
        assert!((n2 - S * S).abs() <= 9 * S, "length off for {:?}", (x, y, z));
    }
}

#[test]
fn primary_ray_through_pixel_center() {
    let scene = Scene {
        width: 2,
        height: 2,
        fov_scale: S,
        spheres: vec![],
        lights: vec![],
        camera_pos: Point { x: 0, y: 0, z: 0 },
    };
    let r = Ray::prime_ray_on_sensor(0, 0, &scene);
    assert_eq!(r.origin, Point { x: 0, y: 0, z: 0 });
    assert_eq!(r.direction, Vector3D { x: -S / 2, y: S / 2, z: -S });
    let r = Ray::prime_ray_on_sensor(1, 1, &scene);
    assert_eq!(r.direction, Vector3D { x: S / 2, y: -S / 2, z: -S });
}

#[test]
fn rgba_quantizes_and_clamps() {
    let c = Color { red: S, green: S / 2, blue: 0 };
    let q = c.to_rgba();
    assert_eq!((q.r, q.g, q.b, q.a), (255, 128, 0, 255));
    // shading overshoot and negative factors narrow into the display range
    let c = Color { red: 2 * S, green: -S, blue: 26214 };
    let q = c.to_rgba();
    assert_eq!((q.r, q.g, q.b, q.a), (255, 0, 102, 255));
}

#[test]
fn vector_algebra_basics() {
    let a = Vector3D { x: 1, y: 2, z: 3 };
    let b = Vector3D { x: 4, y: 5, z: 6 };
    assert_eq!(dot_3d(&a, &b), 32);
    let c = cross_3d(Vector3D { x: S, y: 0, z: 0 }, Vector3D { x: 0, y: S, z: 0 });
    assert_eq!(c, Vector3D { x: 0, y: 0, z: S });
    let v = Vector3D { x: 3 * S, y: 4 * S, z: 0 };
    assert_eq!(v.length(), 5 * S);
    let d = Vector3D::a2b_vec(&Point { x: 1, y: 2, z: 3 }, &Point { x: 7, y: 5, z: 3 });
    assert_eq!(d, Vector3D { x: 6, y: 3, z: 0 });
}
