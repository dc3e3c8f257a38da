//! Integer kernels of a software rasterizer for a small solar system: line
//! walking, depth testing, order keys for floating-point bit patterns, texel
//! addressing, cube-map face selection, raster scans, shader selection and
//! nearest-planet and collision selection.

pub mod line;
pub mod framebuffer;
pub mod texture;
pub mod raster;
pub mod shading;
pub mod solar;
pub mod order;
