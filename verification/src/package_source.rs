//! Where a package comes from, and its checked, interned form.
use vstd::prelude::*;

use crate::intern::{intern_spec, resolve_spec, Interner, InternerError};
use crate::package_id::{
    package_intern, package_ok, package_text, InternedPackageId, PackageIdParseError,
};
use crate::path::interned::InternedNeutralPath;
use crate::path::spec::{from_path_spec, leads_up};
use crate::path::{NeutralPath, PathError};

verus! {

/// Why a package source was refused.
#[derive(Debug)]
pub enum PackageSourceResolveError {
    /// failed to parse package
    FailedToResolve(PackageIdParseError),
    /// Interner error while processing package source
    InternerError(InternerError),
    /// The path is not a valid neutral path.
    PathError(PathError),
    /// the path is not relative to the project root
    PathNotInRoot(String),
}

/// The source of a package. A path is relative to the project root.
#[derive(Debug, Clone, PartialEq, Eq, Hash)]
pub enum PackageSource {
    /// From a registry.
    Registry { package: String },
    /// From a Git repository.
    Git { repo: String, checkout: Option<String> },
    /// From an HTTP download.
    Http { url: String },
    /// From a local path, relative to the project root.
    Path { path: String },
}

/// The interned and checked source: a path stays within the project root.
#[derive(Debug, Clone, PartialEq, Eq, Hash)]
pub enum InternedPackageSource {
    Registry { package: InternedPackageId },
    Git { repo: String, checkout: Option<String> },
    Http { url: String },
    Path { path: InternedNeutralPath },
}

fn copy_option(o: &Option<String>) -> (r: Option<String>)
    ensures
        match o {
            Some(s) => r matches Some(t) && t@ == s@,
            None => r is None,
        },
{
    match o {
        Some(s) => Some(s.clone()),
        None => None,
    }
}

impl PackageSource {
    /// A path must be a valid neutral path that stays inside the project root (its
    /// normal form does not begin with a `..` component); other sources are always
    /// valid.
    pub fn validate(&self) -> (r: Result<(), PackageSourceResolveError>)
        ensures
            match self {
                PackageSource::Path { path } => match from_path_spec(path@) {
                    Err(e) => r matches Err(PackageSourceResolveError::PathError(f)) && f == e,
                    Ok(t) => if leads_up(t) {
                        r matches Err(PackageSourceResolveError::PathNotInRoot(p)) && p@ == path@
                    } else {
                        r is Ok
                    },
                },
                _ => r is Ok,
            },
    {
        match self {
            PackageSource::Path { path } => {
                let p = match NeutralPath::from_path(path.as_str()) {
                    Ok(p) => p,
                    Err(e) => {
                        return Err(PackageSourceResolveError::PathError(e));
                    },
                };
                if p.climbs_out() {
                    return Err(PackageSourceResolveError::PathNotInRoot(path.clone()));
                }
                Ok(())
            },
            _ => Ok(()),
        }
    }

    /// Checks and interns the source: a registry package is parsed as
    /// `group:name@version`, a path is normalized.
    pub fn intern(self, interner: &mut Interner) -> (r: Result<
        InternedPackageSource,
        PackageSourceResolveError,
    >)
        requires
            old(interner)@.len() < usize::MAX - 2,
        ensures
            match self {
                PackageSource::Registry { package } => {
                    &&& package_ok(package@) ==> (r matches Ok(
                        InternedPackageSource::Registry { package: p },
                    ) && (
                        final(interner)@,
                        p.name.group.0.0 as nat,
                        p.name.name.0.0 as nat,
                        p.version.0.0 as nat,
                    ) == package_intern(old(interner)@, package@))
                    &&& !package_ok(package@) ==> (r matches Err(
                        PackageSourceResolveError::FailedToResolve(_),
                    ))
                },
                PackageSource::Git { repo, checkout } => r matches Ok(
                    InternedPackageSource::Git { repo: rp, checkout: c },
                ) && rp@ == repo@ && c == checkout && final(interner)@ == old(interner)@,
                PackageSource::Http { url } => r matches Ok(InternedPackageSource::Http { url: u })
                    && u@ == url@ && final(interner)@ == old(interner)@,
                PackageSource::Path { path } => match from_path_spec(path@) {
                    Err(e) => r matches Err(PackageSourceResolveError::PathError(f)) && f == e
                        && final(interner)@ == old(interner)@,
                    Ok(t) => if leads_up(t) {
                        r matches Err(PackageSourceResolveError::PathNotInRoot(p)) && p@ == path@
                            && final(interner)@ == old(interner)@
                    } else {
                        r matches Ok(InternedPackageSource::Path { path: ip }) && (
                            final(interner)@,
                            ip.key() as nat,
                        ) == intern_spec(old(interner)@, t)
                    },
                },
            },
    {
        match self.validate() {
            Ok(()) => {},
            Err(e) => {
                return Err(e);
            },
        }
        match self {
            PackageSource::Registry { package } => {
                match InternedPackageId::try_parse(package.as_str(), interner) {
                    Ok(p) => Ok(InternedPackageSource::Registry { package: p }),
                    Err(e) => Err(PackageSourceResolveError::FailedToResolve(e)),
                }
            },
            PackageSource::Git { repo, checkout } => Ok(InternedPackageSource::Git { repo, checkout }),
            PackageSource::Http { url } => Ok(InternedPackageSource::Http { url }),
            PackageSource::Path { path } => {
                let p = match NeutralPath::from_path(path.as_str()) {
                    Ok(p) => p,
                    Err(e) => {
                        return Err(PackageSourceResolveError::PathError(e));
                    },
                };
                match InternedNeutralPath::intern(&p, interner) {
                    Ok(ip) => Ok(InternedPackageSource::Path { path: ip }),
                    Err(e) => Err(PackageSourceResolveError::InternerError(e)),
                }
            },
        }
    }
}

impl InternedPackageSource {
    /// The source again, with its texts read from the interner.
    pub fn unintern(&self, interner: &Interner) -> (r: Result<PackageSource, InternerError>)
        ensures
            match self {
                InternedPackageSource::Registry { package } => match package_text(
                    interner@,
                    package.name.group.0.0 as int,
                    package.name.name.0.0 as int,
                    package.version.0.0 as int,
                ) {
                    Some(t) => r matches Ok(PackageSource::Registry { package: s }) && s@ == t,
                    None => r is Err,
                },
                InternedPackageSource::Git { repo, checkout } => r matches Ok(
                    PackageSource::Git { repo: rp, checkout: c },
                ) && rp@ == repo@ && match checkout {
                    Some(x) => c matches Some(y) && y@ == x@,
                    None => c is None,
                },
                InternedPackageSource::Http { url } => r matches Ok(PackageSource::Http { url: u })
                    && u@ == url@,
                InternedPackageSource::Path { path } => match resolve_spec(
                    interner@,
                    path.key() as int,
                ) {
                    Some(t) => r matches Ok(PackageSource::Path { path: s }) && s@ == t,
                    None => r is Err,
                },
            },
    {
        match self {
            InternedPackageSource::Registry { package } => match package.resolved(interner) {
                Ok(s) => Ok(PackageSource::Registry { package: s }),
                Err(PackageIdParseError::InternerError(e)) => Err(e),
                Err(_) => Err(InternerError::CapacityExceeded),
            },
            InternedPackageSource::Git { repo, checkout } => Ok(
                PackageSource::Git { repo: repo.clone(), checkout: copy_option(checkout) },
            ),
            InternedPackageSource::Http { url } => Ok(PackageSource::Http { url: url.clone() }),
            InternedPackageSource::Path { path } => match path.resolve(interner) {
                Ok(s) => Ok(PackageSource::Path { path: String::from_str(s) }),
                Err(e) => Err(e),
            },
        }
    }
}

} // verus!
