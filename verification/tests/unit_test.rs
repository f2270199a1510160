use ray_tracer::{Color, Object, Plane, Point, Ray, Sphere, Vector3D};

// One world unit in the library's fixed-point representation.
const S: i64 = 65536;

#[test]
fn intersection() {
    let ray = Ray {
        origin: Point { x: 0, y: 0, z: 0 },
        direction: Vector3D { x: 0, y: 0, z: -S },
    };
    let sphere = Sphere {
        center: Point { x: 0, y: 0, z: -5 * S },
        radius: S,
        color: Color { red: 26214, green: S, blue: 26214 },
        albedo: 13107,
    };
    assert!(sphere.is_intersect(&ray));
    let plane = Plane {
        normal: Vector3D { x: 0, y: S, z: S },
        pt: Point { x: 0, y: 0, z: -5 * S },
        color: Color { red: S, green: S, blue: S },
        albedo: 0,
    };
    assert!(plane.is_intersect(&ray));
    let (_is_intersect, dist, _c) = plane.cal_intersect_distance(&ray);
    // the along-ray distance to the plane y + z = -5 from the origin
    // along (0, 0, -1) is five world units
    assert_eq!(dist.unwrap(), 5 * S as i128);
}
