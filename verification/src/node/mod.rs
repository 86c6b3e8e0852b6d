//! The nodes of the build graph: their keys and results.
pub mod file;
pub mod glob;
pub mod transpile_ts;
