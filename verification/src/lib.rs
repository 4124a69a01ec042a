//! Verified core of an OpenSCAD Model Context Protocol server: argument and
//! parameter parsing, tool registries, dependency analysis, cache
//! bookkeeping and the text processing that the server performs on
//! OpenSCAD sources and OpenSCAD's diagnostic output.
pub mod analysis;
pub mod cache;
pub mod cli;
pub mod config;
pub mod error;
pub mod listing;
pub mod mcp;
pub mod metrics;
pub mod text;
pub mod tools;
pub mod models;
pub mod render;
pub mod server;
