//! The node that globs files.
use vstd::prelude::*;

use crate::intern::InternedAbsolutePath;

verus! {

/// The files a glob found.
#[derive(Debug, Clone, PartialEq, Eq)]
pub struct GlobResult {
    pub paths: Vec<InternedAbsolutePath>,
}

} // verus!
