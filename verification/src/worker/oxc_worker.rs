//! The worker that transpiles with Oxc: its output and errors.
use vstd::prelude::*;

verus! {

/// Why transpiling failed.
#[derive(Debug, Clone, PartialEq, Eq)]
pub enum TransformerError {
    /// Failed to parse es target `{0}`: {1}
    ESTargetError(String, String),
    /// Failed to parse source code
    ParseError(Vec<String>),
}

/// Output from the transpiler worker.
#[derive(Debug, Clone, PartialEq, Eq)]
pub struct OxcTranspilerOutput {
    pub code: String,
    pub map: Option<String>,
}

/// A worker that transpiles code using Oxc.
#[derive(Debug, Clone, Copy, PartialEq, Eq)]
pub struct OxcTranspilerWorker;

} // verus!
