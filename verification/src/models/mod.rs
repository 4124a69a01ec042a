//! Model management: the include graph of OpenSCAD files, the parsing of
//! `include`/`use` statements, the search for circular includes and the
//! rules of the model file store.
pub mod circular;
pub mod dependency;
pub mod includes;
pub mod path_key;
pub mod store;

pub use dependency::DependencyGraph;
pub use includes::parse_includes;
pub use store::ModelStore;
