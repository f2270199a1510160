//! Rays and their construction from camera parameters.

use vstd::prelude::*;
use crate::algebra::{Point, Vector3D};
use crate::math::{SCALE, COORD_MAX, RAY_MAX, div_floor_i128, lemma_div_mag_bound};
use crate::scene::Scene;

verus! {

/// A half-line: origin plus direction.  Directions need not be
/// unit-length; the intersection formulas normalize where the geometry
/// calls for it.
#[derive(Clone, Copy, Debug, PartialEq, Eq, Structural)]
pub struct Ray {
    pub origin: Point,
    pub direction: Vector3D,
}

/// Scaled x coordinate of the sensor point for pixel column `x`: the
/// pixel center mapped to `[-1, 1]`, times the aspect ratio, times the
/// projection scale.  The widths cancel exactly:
/// `((2x + 1 - w) / h) * fov_scale`, rounded down.
pub open spec fn sensor_x_spec(x: u32, scene: Scene) -> int {
    ((2 * x + 1 - scene.width) * scene.fov_scale) / (scene.height as int)
}

/// Scaled y coordinate of the sensor point for pixel row `y`; image
/// row zero is the top of the picture, so the sign is flipped:
/// `((h - 2y - 1) / h) * fov_scale`, rounded down.
pub open spec fn sensor_y_spec(y: u32, scene: Scene) -> int {
    ((scene.height - 2 * y - 1) * scene.fov_scale) / (scene.height as int)
}

impl Ray {
    /// All components in range for the intersection formulas.
    pub open spec fn wf(self) -> bool {
        self.origin.in_range(RAY_MAX as int) && self.direction.in_range(RAY_MAX as int)
    }

    /// The primary ray for pixel `(x, y)`: from the camera position
    /// through this pixel's point on the sensor plane one world unit in
    /// front of the camera (the plane `z == -1` of camera space, taken
    /// as world space: the camera does not rotate).
    pub fn prime_ray_on_sensor(x: u32, y: u32, scene: &Scene) -> (r: Ray)
        requires
            scene.wf(),
            x < scene.width,
            y < scene.height,
            scene.width * scene.fov_scale <= COORD_MAX * scene.height,
        ensures
            r.origin == scene.camera_pos,
            r.direction.x == sensor_x_spec(x, *scene) - scene.camera_pos.x,
            r.direction.y == sensor_y_spec(y, *scene) - scene.camera_pos.y,
            r.direction.z == -SCALE - scene.camera_pos.z,
            r.wf(),
    {
        let w = scene.width;
        let h = scene.height;
        let fs = scene.fov_scale;
        let nx: i128 = 2 * (x as i128) + 1 - (w as i128);
        let ny: i128 = (h as i128) - 2 * (y as i128) - 1;
        proof {
            assert(-((w as int) * fs) <= nx * fs <= (w as int) * fs && (w as int) * fs
                <= 0x1000_0000 * (h as int)) by (nonlinear_arith)
                requires
                    -(w as int) <= nx <= w as int,
                    1 <= fs,
                    (w as int) * fs <= 0x1000_0000 * (h as int),
                    w >= 1,
                    h >= 1,
            ;
            lemma_div_mag_bound(nx * fs, h as int, 0x1000_0000);
            assert(-((h as int) * fs) <= ny * fs <= (h as int) * fs && (h as int) * fs
                <= 0x1000_0000 * (h as int)) by (nonlinear_arith)
                requires
                    -(h as int) <= ny <= h as int,
                    1 <= fs <= 0x1000_0000,
                    h >= 1,
            ;
            lemma_div_mag_bound(ny * fs, h as int, 0x1000_0000);
        }
        let sx = div_floor_i128(nx * (fs as i128), h as i128);
        let sy = div_floor_i128(ny * (fs as i128), h as i128);
        let ctr = Point { x: sx as i64, y: sy as i64, z: -SCALE };
        Ray {
            origin: scene.camera_pos,
            direction: Vector3D::a2b_vec(&scene.camera_pos, &ctr),
        }
    }
}

} // verus!
