//! The results of transpiling TypeScript to JavaScript.
use vstd::prelude::*;

verus! {

/// Why transpiling failed.
#[derive(Debug, Clone, PartialEq, Eq)]
pub enum TransformerError {
    /// Failed to parse es target `{0}`: {1}
    ESTargetError(String, String),
    /// Failed to parse source code
    ParseError(Vec<String>),
}

/// Transpiled code and its source map.
#[derive(Debug, Clone, PartialEq, Eq)]
pub struct Transpiled {
    pub code: String,
    pub source_map: Option<String>,
}

} // verus!
