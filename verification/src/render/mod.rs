//! Rendering: entity picking on the canvas, mesh generation, and the integer bookkeeping
//! of the ray tracing pipeline.

pub mod canvas;
pub mod mesh;
pub mod pipeline;
