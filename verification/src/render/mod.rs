//! Rendering parameters and the OpenSCAD engine's description.
pub mod engine;
pub mod params;

pub use engine::OpenSCADEngine;
pub use params::QualityPreset;
