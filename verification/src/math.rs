//! Numbers, vectors and matrices.
//!
//! A scalar is a [`Fixed`]: a whole number of 65536ths in an `i32`. Its
//! arithmetic rounds toward negative infinity and saturates at the ends of
//! the range, so no operation of it fails.

pub mod fixed;
pub mod matrix;
pub mod text;
pub mod vector;

pub use fixed::Fixed;
pub use matrix::Matrix;
pub use vector::Vec2f;
pub use vector::Vec2i;
pub use vector::Vec3f;
pub use vector::Vec3i;
pub use vector::Vec4f;
pub use vector::Vec4i;
pub use vector::Vecf;
pub use vector::Veci;
pub use vector::Vector;
