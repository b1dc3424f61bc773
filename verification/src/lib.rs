//! The verified core of an interactive 3D scene viewer: mesh geometry and its
//! validation, vertex deduplication, descriptor-binding layout, the per-frame
//! draw protocol, model-loading decisions and camera navigation choices.
//!
//! Everything here works on plain values. Floating-point camera math, GPU
//! resources, windowing and file access live with the application around it.

pub mod bindings;
pub mod camera;
pub mod frame;
pub mod light;
pub mod loader;
pub mod mesh;
pub mod object;
pub mod space;
pub mod support;
