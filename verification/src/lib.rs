//! A software triangle rasterizer.
//!
//! The library draws filled, colored 2D triangles with integer coordinates
//! into a caller-owned, row-major pixel buffer. It provides the signed-area
//! edge function, winding normalization for triangles, Bresenham line
//! drawing, a bounding-box scanline fill, and bounds-checked framebuffer
//! addressing. Out-of-range pixel writes are silently skipped, so drawing
//! never touches memory outside the buffer.

pub mod framebuffer;
pub mod geometry;
pub mod input;
pub mod raster;

pub use framebuffer::Framebuffer;
pub use geometry::edge_function;
pub use geometry::Point;
pub use geometry::Triangle;
