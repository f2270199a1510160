//! A minimal offline ray tracer over fixed-point arithmetic.
//!
//! Every real-valued quantity (coordinates, radii, distances, colors,
//! intensities) is represented as an integer equal to the real value
//! multiplied by [`math::SCALE`].  All geometry — ray construction from
//! camera parameters, sphere and plane intersection, nearest-hit
//! resolution and Lambertian shading — is carried out exactly on these
//! scaled integers, with every rounding step pinned down in the
//! function contracts.

pub mod math;
pub mod algebra;
pub mod color;
pub mod ray;
pub mod shapes;
pub mod scene;

pub use algebra::{Point, Vector3D};
pub use color::{Color, Rgba};
pub use ray::Ray;
pub use scene::{LightSrc, Scene};
pub use shapes::{Object, Plane, Primitive, Sphere};
