//! Package identifiers: `group:name@version`, interned.
use vstd::prelude::*;

use crate::id::{ident_spec, is_loose_ident, IdParseError, InternedAtom};
use crate::intern::{intern_spec, resolve_spec, InternedString, Interner, InternerError};
use crate::path::spec::{first_index, last_index};
use crate::text::{
    chars_of, last_index_exec, lemma_first_index_holds, lemma_last_index_holds, range_first_index,
    split_char, split_char_ranges,
};

verus! {

#[verifier::external_type_specification]
#[verifier::external_body]
pub struct ExSemverError(semver::Error);

/// Whether `semver::Version::parse` accepts the text (SemVer 2.0.0).
pub uninterp spec fn semver_accepts(s: Seq<char>) -> bool;

/// `semver::Version::parse`, keeping only whether it succeeded. Claimed:
/// it succeeds exactly when `semver_accepts` holds, and never on an empty text
/// (the crate rejects an empty text first).
#[verifier::external_body]
fn semver_parse(s: &str) -> (r: Result<(), semver::Error>)
    ensures
        (r is Ok) == semver_accepts(s@),
        s@.len() == 0 ==> r is Err,
{
    semver::Version::parse(s).map(|_v| ())
}

/// Why a package identifier was refused.
#[derive(Debug)]
pub enum PackageIdParseError {
    VersionError(String, semver::Error),
    InvalidFormat(String, String),
    IdParseError(String, IdParseError),
    InternerError(InternerError),
}

/// A package version, checked against SemVer 2.0.0.
#[derive(Debug, Clone, Copy, PartialEq, Eq, Hash)]
pub struct InternedVersion(pub InternedString);

/// A package group: reversed domain, `.`-separated loose identifiers.
#[derive(Debug, Clone, Copy, PartialEq, Eq, Hash)]
pub struct InternedGroup(pub InternedString);

/// `group:name`.
#[derive(Debug, Clone, Copy, PartialEq, Eq, Hash)]
pub struct InternedArtifactId {
    pub group: InternedGroup,
    pub name: InternedAtom,
}

/// `group:name@version`.
#[derive(Debug, Clone, Copy, PartialEq, Eq, Hash)]
pub struct InternedPackageId {
    pub name: InternedArtifactId,
    pub version: InternedVersion,
}

/// The first part that is not a loose identifier.
pub open spec fn first_bad_part(parts: Seq<Seq<char>>) -> Option<Seq<char>>
    decreases parts.len(),
{
    if parts.len() == 0 {
        None
    } else if !ident_spec(parts[0], true) {
        Some(parts[0])
    } else {
        first_bad_part(parts.drop_first())
    }
}

/// A valid group text.
pub open spec fn group_ok(s: Seq<char>) -> bool {
    s.len() > 0 && first_bad_part(split_char(s, '.')) is None
}

/// The message of a refused group.
pub open spec fn group_error_message(s: Seq<char>) -> Seq<char> {
    if s.len() == 0 {
        "Group cannot be empty"@
    } else {
        "the part `"@ + first_bad_part(split_char(s, '.'))->Some_0
            + "` does not pass the is_xid_loose_ident() check"@
    }
}

/// `group:name` split at the first `:`.
pub open spec fn artifact_group(s: Seq<char>) -> Seq<char> {
    s.take(first_index(s, ':') as int)
}

pub open spec fn artifact_name(s: Seq<char>) -> Seq<char> {
    s.skip(first_index(s, ':') as int + 1)
}

pub open spec fn has_colon(s: Seq<char>) -> bool {
    first_index(s, ':') < s.len()
}

pub open spec fn artifact_ok(s: Seq<char>) -> bool {
    has_colon(s) && group_ok(artifact_group(s)) && ident_spec(artifact_name(s), true)
}

/// The table and the keys of group and name after interning `group:name`.
pub open spec fn artifact_intern(m: Seq<Seq<char>>, s: Seq<char>) -> (Seq<Seq<char>>, nat, nat) {
    let (m1, kg) = intern_spec(m, artifact_group(s));
    let (m2, kn) = intern_spec(m1, artifact_name(s));
    (m2, kg, kn)
}

/// `group:name@version` split at the last `@`.
pub open spec fn package_artifact(s: Seq<char>) -> Seq<char> {
    s.take(last_index(s, '@'))
}

pub open spec fn package_version(s: Seq<char>) -> Seq<char> {
    s.skip(last_index(s, '@') + 1)
}

pub open spec fn package_ok(s: Seq<char>) -> bool {
    last_index(s, '@') >= 0 && artifact_ok(package_artifact(s)) && semver_accepts(
        package_version(s),
    )
}

/// The table and the keys of group, name and version after interning a package id.
pub open spec fn package_intern(m: Seq<Seq<char>>, s: Seq<char>) -> (
    Seq<Seq<char>>,
    nat,
    nat,
    nat,
) {
    let (m2, kg, kn) = artifact_intern(m, package_artifact(s));
    let (m3, kv) = intern_spec(m2, package_version(s));
    (m3, kg, kn, kv)
}

/// The text of interned keys `group:name`, when both keys are known.
pub open spec fn artifact_text(m: Seq<Seq<char>>, kg: int, kn: int) -> Option<Seq<char>> {
    match (resolve_spec(m, kg), resolve_spec(m, kn)) {
        (Some(g), Some(n)) => Some(g + seq![':'] + n),
        _ => None,
    }
}

/// The text of interned keys `group:name@version`, when all keys are known.
pub open spec fn package_text(m: Seq<Seq<char>>, kg: int, kn: int, kv: int) -> Option<Seq<char>> {
    match (artifact_text(m, kg, kn), resolve_spec(m, kv)) {
        (Some(a), Some(v)) => Some(a + seq!['@'] + v),
        _ => None,
    }
}

/// The table only grew: every key handed out before still means the same text.
pub open spec fn extends(old: Seq<Seq<char>>, new: Seq<Seq<char>>) -> bool {
    old.len() <= new.len() && new.take(old.len() as int) == old
}

/// Interning only grows the table.
pub proof fn lemma_intern_extends(m: Seq<Seq<char>>, s: Seq<char>)
    ensures
        extends(m, intern_spec(m, s).0),
{
    if !m.contains(s) {
        assert(m.push(s).take(m.len() as int) =~= m);
    } else {
        assert(m.take(m.len() as int) =~= m);
    }
}

/// One interning: the table grows by at most one, and the key names the text.
pub proof fn lemma_intern_step(m: Seq<Seq<char>>, s: Seq<char>)
    ensures
        intern_spec(m, s).0.len() <= m.len() + 1,
        extends(m, intern_spec(m, s).0),
        resolve_spec(intern_spec(m, s).0, intern_spec(m, s).1 as int) == Some(s),
{
    lemma_intern_extends(m, s);
    lemma_extends_refl(intern_spec(m, s).0);
    lemma_key_survives(m, s, intern_spec(m, s).0);
}

/// A key keeps its text when the table grows.
pub proof fn lemma_resolve_survives(a: Seq<Seq<char>>, b: Seq<Seq<char>>, k: int)
    requires
        extends(a, b),
        resolve_spec(a, k) is Some,
    ensures
        resolve_spec(b, k) == resolve_spec(a, k),
{
    assert(b[k] == b.take(a.len() as int)[k]);
}

/// Growing the table twice is growing it.
pub proof fn lemma_extends_trans(a: Seq<Seq<char>>, b: Seq<Seq<char>>, c: Seq<Seq<char>>)
    requires
        extends(a, b),
        extends(b, c),
    ensures
        extends(a, c),
{
    assert(c.take(a.len() as int) =~= c.take(b.len() as int).take(a.len() as int));
}

/// A table extends itself.
pub proof fn lemma_extends_refl(a: Seq<Seq<char>>)
    ensures
        extends(a, a),
{
    assert(a.take(a.len() as int) =~= a);
}

proof fn lemma_first_bad_all_good(parts: Seq<Seq<char>>)
    requires
        forall|j: int| 0 <= j < parts.len() ==> ident_spec(#[trigger] parts[j], true),
    ensures
        first_bad_part(parts) is None,
    decreases parts.len(),
{
    if parts.len() > 0 {
        assert forall|j: int| 0 <= j < parts.drop_first().len() implies ident_spec(
            #[trigger] parts.drop_first()[j],
            true,
        ) by {
            assert(parts.drop_first()[j] == parts[j + 1]);
        }
        lemma_first_bad_all_good(parts.drop_first());
    }
}

proof fn lemma_first_bad_at(parts: Seq<Seq<char>>, k: int)
    requires
        0 <= k < parts.len(),
        forall|j: int| 0 <= j < k ==> ident_spec(#[trigger] parts[j], true),
        !ident_spec(parts[k], true),
    ensures
        first_bad_part(parts) == Some(parts[k]),
    decreases k,
{
    if k > 0 {
        assert forall|j: int| 0 <= j < k - 1 implies ident_spec(#[trigger] parts.drop_first()[j], true) by {
            assert(parts.drop_first()[j] == parts[j + 1]);
        }
        lemma_first_bad_at(parts.drop_first(), k - 1);
    }
}

impl InternedVersion {
    /// Interns `s` when it is a SemVer 2.0.0 version.
    pub fn try_parse(s: &str, interner: &mut Interner) -> (r: Result<Self, PackageIdParseError>)
        requires
            old(interner)@.len() < usize::MAX,
        ensures
            semver_accepts(s@) ==> (r matches Ok(v) && (final(interner)@, v.0.0 as nat)
                == intern_spec(old(interner)@, s@)),
            !semver_accepts(s@) ==> (r matches Err(PackageIdParseError::VersionError(t, _))
                && t@ == s@ && final(interner)@ == old(interner)@),
    {
        let checked = semver_parse(s);
        Self::from_checked(s, checked, interner)
    }

    /// Interns `s` after its SemVer check gave `checked`.
    pub fn from_checked(s: &str, checked: Result<(), semver::Error>, interner: &mut Interner) -> (r:
        Result<Self, PackageIdParseError>)
        requires
            old(interner)@.len() < usize::MAX,
        ensures
            checked is Ok ==> (r matches Ok(v) && (final(interner)@, v.0.0 as nat) == intern_spec(
                old(interner)@,
                s@,
            )),
            checked is Err ==> (r matches Err(PackageIdParseError::VersionError(t, _)) && t@
                == s@ && final(interner)@ == old(interner)@),
    {
        match checked {
            Err(e) => Err(PackageIdParseError::VersionError(String::from_str(s), e)),
            Ok(_) => match interner.get_or_intern(s) {
                Ok(k) => Ok(InternedVersion(k)),
                Err(e) => Err(PackageIdParseError::InternerError(e)),
            },
        }
    }
}

impl InternedGroup {
    /// Interns `s` when it is a non-empty, `.`-separated list of loose identifiers.
    pub fn try_parse(s: &str, interner: &mut Interner) -> (r: Result<Self, PackageIdParseError>)
        requires
            old(interner)@.len() < usize::MAX,
        ensures
            group_ok(s@) ==> (r matches Ok(g) && (final(interner)@, g.0.0 as nat) == intern_spec(
                old(interner)@,
                s@,
            )),
            !group_ok(s@) ==> (r matches Err(PackageIdParseError::InvalidFormat(t, m)) && t@
                == s@ && m@ == group_error_message(s@) && final(interner)@ == old(interner)@),
    {
        proof {
            reveal_strlit("Group cannot be empty");
        }
        let chars = chars_of(s);
        if chars.len() == 0 {
            return Err(
                PackageIdParseError::InvalidFormat(
                    String::from_str(s),
                    String::from_str("Group cannot be empty"),
                ),
            );
        }
        let ranges = split_char_ranges(&chars, '.');
        let ghost parts = split_char(s@, '.');
        let mut k: usize = 0;
        while k < ranges.len()
            invariant
                chars@ == s@,
                s@.len() > 0,
                parts == split_char(s@, '.'),
                ranges@.len() == parts.len(),
                forall|j: int|
                    0 <= j < ranges@.len() ==> #[trigger] ranges@[j].0 <= ranges@[j].1
                        && ranges@[j].1 <= chars@.len(),
                forall|j: int|
                    0 <= j < ranges@.len() ==> chars@.subrange(
                        #[trigger] ranges@[j].0 as int,
                        ranges@[j].1 as int,
                    ) == parts[j],
                k <= ranges@.len(),
                forall|j: int| 0 <= j < k ==> ident_spec(#[trigger] parts[j], true),
            decreases ranges@.len() - k,
        {
            let (lo, hi) = ranges[k];
            let part = s.substring_char(lo, hi);
            if !is_loose_ident(part) {
                proof {
                    lemma_first_bad_at(parts, k as int);
                }
                let mut msg = String::from_str("the part `");
                msg.append(part);
                msg.append("` does not pass the is_xid_loose_ident() check");
                assert(part@ == parts[k as int]);
                assert(first_bad_part(split_char(s@, '.'))->Some_0 == part@);
                assert(s@.len() > 0);
                assert(msg@ == group_error_message(s@));
                return Err(PackageIdParseError::InvalidFormat(String::from_str(s), msg));
            }
            k = k + 1;
        }
        proof {
            lemma_first_bad_all_good(parts);
        }
        match interner.get_or_intern(s) {
            Ok(key) => Ok(InternedGroup(key)),
            Err(e) => Err(PackageIdParseError::InternerError(e)),
        }
    }
}


impl InternedArtifactId {
    /// Parses and interns `group:name` (split at the first `:`).
    pub fn try_parse(s: &str, interner: &mut Interner) -> (r: Result<Self, PackageIdParseError>)
        requires
            old(interner)@.len() < usize::MAX - 1,
        ensures
            extends(old(interner)@, final(interner)@),
            !has_colon(s@) ==> (r matches Err(PackageIdParseError::InvalidFormat(t, m)) && t@
                == s@ && m@ == "Invalid package id format. Expected 'group:name'"@
                && final(interner)@ == old(interner)@),
            has_colon(s@) && !group_ok(artifact_group(s@)) ==> (r matches Err(
                PackageIdParseError::InvalidFormat(t, m),
            ) && t@ == artifact_group(s@) && m@ == group_error_message(artifact_group(s@))
                && final(interner)@ == old(interner)@),
            has_colon(s@) && group_ok(artifact_group(s@)) && !ident_spec(artifact_name(s@), true)
                ==> (r matches Err(PackageIdParseError::IdParseError(t, IdParseError::InvalidAtom(u)))
                && t@ == s@ && u@ == artifact_name(s@)),
            artifact_ok(s@) ==> (r matches Ok(a) && (final(interner)@, a.group.0.0 as nat, a.name.0.0 as nat)
                == artifact_intern(old(interner)@, s@)),
    {
        proof {
            lemma_extends_refl(old(interner)@);
        }
        let chars = chars_of(s);
        let n = chars.len();
        let k = range_first_index(&chars, 0, n, ':');
        proof {
            assert(chars@.subrange(0, n as int) =~= s@);
        }
        if k == n {
            return Err(
                PackageIdParseError::InvalidFormat(
                    String::from_str(s),
                    String::from_str("Invalid package id format. Expected 'group:name'"),
                ),
            );
        }
        let g = s.substring_char(0, k);
        let nm = s.substring_char(k + 1, n);
        proof {
            assert(g@ =~= artifact_group(s@));
            assert(nm@ =~= artifact_name(s@));
        }
        let ghost m0 = interner@;
        let group = match InternedGroup::try_parse(g, interner) {
            Ok(group) => group,
            Err(e) => {
                return Err(e);
            },
        };
        proof {
            lemma_intern_extends(m0, g@);
        }
        let ghost m1 = interner@;
        let name = match InternedAtom::try_parse(nm, interner) {
            Ok(name) => name,
            Err(err) => {
                return Err(PackageIdParseError::IdParseError(String::from_str(s), err));
            },
        };
        proof {
            lemma_intern_extends(m1, nm@);
            lemma_extends_trans(m0, m1, interner@);
        }
        Ok(InternedArtifactId { group, name })
    }

    /// The text `group:name` of this id.
    pub fn resolved(&self, interner: &Interner) -> (r: Result<String, PackageIdParseError>)
        ensures
            match artifact_text(interner@, self.group.0.0 as int, self.name.0.0 as int) {
                Some(t) => r matches Ok(x) && x@ == t,
                None => r matches Err(PackageIdParseError::InternerError(_)),
            },
    {
        let g = match interner.resolve(&self.group.0) {
            Ok(g) => g,
            Err(e) => {
                return Err(PackageIdParseError::InternerError(e));
            },
        };
        let n = match interner.resolve(&self.name.0) {
            Ok(n) => n,
            Err(e) => {
                return Err(PackageIdParseError::InternerError(e));
            },
        };
        let mut out = String::from_str(g);
        out.append(":");
        out.append(n);
        proof {
            reveal_strlit(":");
        }
        Ok(out)
    }
}

impl InternedPackageId {
    pub fn new(name: InternedArtifactId, version: InternedVersion) -> (r: Self)
        ensures
            r.name == name,
            r.version == version,
    {
        Self { name, version }
    }

    /// Parses and interns `group:name@version` (split at the last `@`).
    pub fn try_parse(s: &str, interner: &mut Interner) -> (r: Result<Self, PackageIdParseError>)
        requires
            old(interner)@.len() < usize::MAX - 2,
        ensures
            extends(old(interner)@, final(interner)@),
            last_index(s@, '@') < 0 ==> (r matches Err(PackageIdParseError::InvalidFormat(t, m))
                && t@ == s@ && m@ == "Invalid package format. Expected 'group:name@version'"@
                && final(interner)@ == old(interner)@),
            ({
                let a = package_artifact(s@);
                last_index(s@, '@') >= 0 ==> {
                    &&& !has_colon(a) ==> (r matches Err(PackageIdParseError::InvalidFormat(t, m))
                        && t@ == a && m@ == "Invalid package id format. Expected 'group:name'"@)
                    &&& has_colon(a) && !group_ok(artifact_group(a)) ==> (r matches Err(
                        PackageIdParseError::InvalidFormat(t, m),
                    ) && t@ == artifact_group(a) && m@ == group_error_message(artifact_group(a)))
                    &&& has_colon(a) && group_ok(artifact_group(a)) && !ident_spec(
                        artifact_name(a),
                        true,
                    ) ==> (r matches Err(
                        PackageIdParseError::IdParseError(t, IdParseError::InvalidAtom(u)),
                    ) && t@ == a && u@ == artifact_name(a))
                    &&& artifact_ok(a) && !semver_accepts(package_version(s@)) ==> (r matches Err(
                        PackageIdParseError::VersionError(t, _),
                    ) && t@ == package_version(s@))
                }
            }),
            package_ok(s@) ==> (r matches Ok(p) && (
                final(interner)@,
                p.name.group.0.0 as nat,
                p.name.name.0.0 as nat,
                p.version.0.0 as nat,
            ) == package_intern(old(interner)@, s@)),
    {
        proof {
            lemma_extends_refl(old(interner)@);
            lemma_last_index_holds(s@, '@');
        }
        let chars = chars_of(s);
        let n = chars.len();
        let j = last_index_exec(&chars, '@');
        if j == 0 {
            return Err(
                PackageIdParseError::InvalidFormat(
                    String::from_str(s),
                    String::from_str("Invalid package format. Expected 'group:name@version'"),
                ),
            );
        }
        let id = s.substring_char(0, j - 1);
        let ver = s.substring_char(j, n);
        proof {
            assert(id@ =~= package_artifact(s@));
            assert(ver@ =~= package_version(s@));
        }
        let ghost m0 = interner@;
        let name = match InternedArtifactId::try_parse(id, interner) {
            Ok(name) => name,
            Err(e) => {
                return Err(e);
            },
        };
        let ghost m2 = interner@;
        let version = match InternedVersion::try_parse(ver, interner) {
            Ok(v) => v,
            Err(e) => {
                return Err(e);
            },
        };
        proof {
            lemma_intern_extends(m2, ver@);
            lemma_extends_trans(m0, m2, interner@);
        }
        Ok(InternedPackageId { name, version })
    }

    /// The text `group:name@version` of this id.
    pub fn resolved(&self, interner: &Interner) -> (r: Result<String, PackageIdParseError>)
        ensures
            match package_text(
                interner@,
                self.name.group.0.0 as int,
                self.name.name.0.0 as int,
                self.version.0.0 as int,
            ) {
                Some(t) => r matches Ok(x) && x@ == t,
                None => r matches Err(PackageIdParseError::InternerError(_)),
            },
    {
        let mut out = match self.name.resolved(interner) {
            Ok(a) => a,
            Err(e) => {
                return Err(e);
            },
        };
        let v = match interner.resolve(&self.version.0) {
            Ok(v) => v,
            Err(e) => {
                return Err(PackageIdParseError::InternerError(e));
            },
        };
        out.append("@");
        out.append(v);
        proof {
            reveal_strlit("@");
        }
        Ok(out)
    }
}

/// The key of an interned text still names it in any later table.
pub proof fn lemma_key_survives(m: Seq<Seq<char>>, t: Seq<char>, later: Seq<Seq<char>>)
    requires
        extends(intern_spec(m, t).0, later),
    ensures
        resolve_spec(later, intern_spec(m, t).1 as int) == Some(t),
{
    if m.contains(t) {
        let w = m.index_of(t);
        assert(m[w] == t);
    }
    let (m1, k) = intern_spec(m, t);
    assert(m1[k as int] == t);
    assert(later[k as int] == later.take(m1.len() as int)[k as int]);
}

/// Resolving what parsing `group:name` interned gives the text back.
pub proof fn law_artifact_id_round_trip(m: Seq<Seq<char>>, s: Seq<char>)
    requires
        artifact_ok(s),
    ensures
        ({
            let (m2, kg, kn) = artifact_intern(m, s);
            artifact_text(m2, kg as int, kn as int) == Some(s)
        }),
{
    let g = artifact_group(s);
    let n = artifact_name(s);
    let (m1, kg) = intern_spec(m, g);
    let (m2, kn) = intern_spec(m1, n);
    lemma_intern_extends(m1, n);
    lemma_extends_refl(m2);
    lemma_key_survives(m, g, m2);
    lemma_key_survives(m1, n, m2);
    lemma_first_index_holds(s, ':');
    let f = first_index(s, ':') as int;
    assert(s[f] == ':');
    assert(g + seq![':'] + n =~= s);
}

/// Resolving what parsing `group:name@version` interned gives the text back.
pub proof fn law_package_id_round_trip(m: Seq<Seq<char>>, s: Seq<char>)
    requires
        package_ok(s),
    ensures
        ({
            let (m3, kg, kn, kv) = package_intern(m, s);
            package_text(m3, kg as int, kn as int, kv as int) == Some(s)
        }),
{
    let a = package_artifact(s);
    let v = package_version(s);
    let (m2, kg, kn) = artifact_intern(m, a);
    let (m3, kv) = intern_spec(m2, v);
    law_artifact_id_round_trip(m, a);
    lemma_intern_extends(m2, v);
    lemma_extends_refl(m3);
    lemma_key_survives(m2, v, m3);
    let g = artifact_group(a);
    let n = artifact_name(a);
    let (m1, kg1) = intern_spec(m, g);
    lemma_intern_extends(m1, n);
    lemma_extends_trans(intern_spec(m, g).0, m2, m3);
    lemma_key_survives(m, g, m3);
    lemma_extends_refl(m2);
    lemma_extends_trans(intern_spec(m1, n).0, m2, m3);
    lemma_key_survives(m1, n, m3);
    lemma_first_index_holds(a, ':');
    let f = first_index(a, ':') as int;
    assert(a[f] == ':');
    assert(g + seq![':'] + n =~= a);
    lemma_last_index_holds(s, '@');
    let j = last_index(s, '@');
    assert(s[j] == '@');
    assert(a + seq!['@'] + v =~= s);
}

} // verus!
