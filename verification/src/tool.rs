//! Tools that build steps require.
use vstd::prelude::*;

verus! {

/// A tool that a build step requires.
#[derive(Debug, Clone, Copy, PartialEq, Eq)]
pub struct RequiredTool {}

} // verus!
