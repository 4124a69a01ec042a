//! Configuration of the server.
pub mod loader;

pub use loader::{Config, ConfigBuilder};
