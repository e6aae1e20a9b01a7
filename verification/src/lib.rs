//! Language-server core for mixed-script prose formatting: hierarchical
//! configuration resolution with a cache, an in-memory document store, and a
//! deterministic reformatting pipeline.

pub mod config;
pub mod formatter;
pub mod resolver;
pub mod server;
pub mod store;
pub mod text;
