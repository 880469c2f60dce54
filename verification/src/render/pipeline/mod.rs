//! Render pipelines.

pub mod rasterization;
pub mod raytracing;
