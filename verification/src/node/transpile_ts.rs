//! The node that transpiles TypeScript.
use vstd::prelude::*;

verus! {

/// Transpiled code and its source map.
#[derive(Debug, Clone, PartialEq, Eq, Hash)]
pub struct TranspileTsResult {
    pub code: String,
    pub source_map: Option<String>,
}

} // verus!
