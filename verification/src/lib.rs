//! Control plane of the open-conv convolution reverb engine.

pub mod banks;
pub mod channels;
pub mod control;
pub mod engine;
pub mod framer;
pub mod geometry;
pub mod laws;
pub mod param_table;
pub mod params;
pub mod partition;
pub mod render_plan;
pub mod sync;
pub mod text;
