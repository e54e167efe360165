//! A small ray tracer core over exact fixed-point decimals: tuple algebra,
//! matrices and affine transforms, rays, sphere intersection and hit
//! selection, surface normals, Phong lighting and a pixel canvas.
pub mod canvas;
pub mod color;
pub mod intersection;
pub mod invertible;
pub mod material;
pub mod matrix;
pub mod ray;
pub mod roundtrip;
pub mod scalar;
pub mod sphere;
pub mod text;
pub mod tuple;

pub use canvas::{Canvas, IndexError};
pub use color::Color;
pub use intersection::Intersection;
pub use invertible::Invertible;
pub use material::{Material, PointLight};
pub use matrix::{Matrix, Matrix2x2, Matrix3x3, Matrix4x4};
pub use ray::{get_hit, Ray};
pub use scalar::Scalar;
pub use sphere::Sphere;
pub use tuple::{ConversionError, Point, Vector};
