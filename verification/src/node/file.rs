//! The node that reads a file of the project.
use vstd::prelude::*;

use crate::hash_input::{le_bytes, push_le_u64};
use crate::path::interned::InternedNeutralPath;

verus! {

/// A file of the project, by its interned path.
#[derive(Debug, Clone, Copy, PartialEq, Eq, Hash)]
pub struct File {
    pub path: InternedNeutralPath,
}

impl File {
    /// Appends what the file node feeds a hasher: the key of its path as eight
    /// little-endian bytes.
    pub fn hash_into_blake3(&self, out: &mut Vec<u8>)
        ensures
            final(out)@ == old(out)@ + le_bytes(self.path.key()),
    {
        push_le_u64(out, self.path.interned().as_u64());
    }
}

} // verus!
