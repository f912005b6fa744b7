//! Computational core of a CPU-only software 3D renderer.
//!
//! The library holds the exact, integer-valued parts of the
//! geometry-to-pixels pipeline: the frustum-clipping state machine over
//! abstract vertex payloads, the depth-tested frame-buffer writes, the
//! rasterizer's bounding box and edge-function arithmetic, texture
//! storage and sampling, line scan conversion, the OBJ/MTL line
//! grammar, and the camera's movement decisions.  Floating-point
//! evaluation (projection matrices, perspective division, barycentric
//! weights) lives with the caller, which hands this library plain
//! values.

pub mod camera;
pub mod clip;
pub mod draw;
pub mod line;
pub mod obj;
pub mod texture;
