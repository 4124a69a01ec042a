//! Analysis of OpenSCAD diagnostics and of the meshes that OpenSCAD exports.
pub mod mesh;
pub mod validator;

pub use validator::ValidationResult;
