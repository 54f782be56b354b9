//! A small software rasterizer in fixed-point arithmetic: vectors and
//! matrices of fixed size, a render target that takes one pixel at a time,
//! straight lines, depth-tested triangles, and flat shading of a triangle
//! mesh under one light. What the functions do is stated in their contracts
//! and proved.

pub mod hsv;
pub mod math;
pub mod renderer;
