//! A software rasterizer for triangle meshes.
//!
//! The library turns 3D model-space vertices into 2D screen points
//! (centering, scaling-to-fit, a fixed view rotation) and fills each
//! triangle into an owned pixel buffer by barycentric scan-conversion.
//! All coordinates are fixed-point numbers with three decimal digits
//! of fraction, so every arithmetic step is exact integer arithmetic.

pub mod color;
pub mod framebuffer;
pub mod geometry;
pub mod pipeline;
