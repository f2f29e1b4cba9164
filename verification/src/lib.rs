//! A print-style halftone renderer.
//!
//! The pipeline separates a continuous-tone RGB raster into four subtractive
//! coverage planes (cyan, magenta, yellow, black), quantizes each plane into a
//! periodic lattice of angled dots whose radius encodes local ink coverage,
//! and composites the four dot patterns back onto one canvas.
//!
//! Coverage values are carried as fixed-point integers: `color::COVERAGE_ONE`
//! stands for full coverage (the real value 1.0). This keeps every stage of
//! the pipeline in exact integer arithmetic.

pub mod arith;
pub mod color;
pub mod plane;
pub mod sampler;
pub mod screen;
pub mod config;
pub mod lattice;
pub mod canvas;
pub mod compositor;
pub mod pipeline;
