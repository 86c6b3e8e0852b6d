//! Neutral paths kept in the interner.
use vstd::prelude::*;

use crate::intern::{intern_spec, resolve_spec, InternedString, Interner, InternerError};
use crate::path::spec::from_path_spec;
use crate::path::{NeutralPath, PathError};

verus! {

/// Why an interned path could not be read back.
#[derive(Debug)]
pub enum UninternError {
    InternerError(InternerError),
    PathError(PathError),
}

/// The key of an interned neutral path.
#[derive(Debug, Clone, Copy, PartialEq, Eq, Hash)]
pub struct InternedNeutralPath {
    interned: InternedString,
}

impl NeutralPath {
    /// Interns the text of this path.
    pub fn intern(&self, interner: &mut Interner) -> (r: Result<InternedNeutralPath, InternerError>)
        requires
            old(interner)@.len() < usize::MAX,
        ensures
            r matches Ok(p) && (final(interner)@, p.key() as nat) == intern_spec(
                old(interner)@,
                self@,
            ),
    {
        InternedNeutralPath::intern(self, interner)
    }
}

impl InternedNeutralPath {
    pub closed spec fn key(self) -> u64 {
        self.interned.0
    }

    /// Interns the text of `path`.
    pub fn intern(path: &NeutralPath, interner: &mut Interner) -> (r: Result<Self, InternerError>)
        requires
            old(interner)@.len() < usize::MAX,
        ensures
            r matches Ok(p) && (final(interner)@, p.key() as nat) == intern_spec(
                old(interner)@,
                path@,
            ),
    {
        match interner.get_or_intern(path.as_str()) {
            Ok(k) => Ok(InternedNeutralPath { interned: k }),
            Err(e) => Err(e),
        }
    }

    pub fn interned(&self) -> (r: InternedString)
        ensures
            r.0 == self.key(),
    {
        self.interned
    }

    /// The text of the path.
    pub fn resolve<'a>(&self, interner: &'a Interner) -> (r: Result<&'a str, InternerError>)
        ensures
            match resolve_spec(interner@, self.key() as int) {
                Some(t) => r matches Ok(s) && s@ == t,
                None => r is Err,
            },
    {
        interner.resolve(&self.interned)
    }

    /// The path again, read from the interner and checked.
    pub fn unintern(&self, interner: &Interner) -> (r: Result<NeutralPath, UninternError>)
        ensures
            match resolve_spec(interner@, self.key() as int) {
                Some(t) => match from_path_spec(t) {
                    Ok(u) => r matches Ok(p) && p@ == u,
                    Err(e) => r matches Err(UninternError::PathError(f)) && f == e,
                },
                None => r matches Err(UninternError::InternerError(_)),
            },
    {
        match interner.resolve(&self.interned) {
            Ok(s) => match NeutralPath::from_path(s) {
                Ok(p) => Ok(p),
                Err(e) => Err(UninternError::PathError(e)),
            },
            Err(e) => Err(UninternError::InternerError(e)),
        }
    }
}

} // verus!
