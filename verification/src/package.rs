//! Package manifests as written, and their checks.
use vstd::prelude::*;

use crate::author::{Author, AuthorError, InternedAuthor};
use crate::config_value::ConfigValue;
use crate::id::{ident_spec, is_loose_ident, IdParseError, InternedAtom};
use crate::intern::{resolve_spec, InternedString, Interner, InternerError};
use crate::package_id::{
    extends, group_ok, lemma_extends_refl, lemma_extends_trans, lemma_intern_step,
    lemma_resolve_survives, semver_accepts, InternedArtifactId, InternedGroup, InternedPackageId,
    InternedVersion, PackageIdParseError,
};
use crate::package_source::{InternedPackageSource, PackageSource, PackageSourceResolveError};
use crate::pattern::{InternedPattern, Pattern};
use crate::text::chars_of;
use crate::project::{
    deps_ok, intern_authors, intern_deps, intern_opt_pattern, lemma_authors_named_survives,
    lemma_deps_named_survives, lemma_pattern_named_survives, opt_atom_named, opt_authors_named,
    opt_deps_named, opt_len, opt_list_eq, opt_pattern_len, opt_text_eq,
    opt_text_named, pattern_named,
};

verus! {

/// Why a package was refused.
#[derive(Debug)]
pub enum PackageResolveError {
    /// the package dependencies key is not a valid xid_loose_ident
    InvalidDependencyKey(String),
    /// the package config key is not a valid xid_loose_ident
    InvalidConfigKey(String),
    /// failed to parse package id of package
    PackageParseError(PackageIdParseError),
    /// failed to resolve package source of the package
    PackageSourceResolveError(PackageSourceResolveError),
    /// failed to parse the id of a package part (the text, the part, the error)
    IdParseError(String, &'static str, IdParseError),
    /// author resolution error
    AuthorError(AuthorError),
    /// interner error
    InternerError(InternerError),
}

/// A package manifest.
#[derive(Debug, Clone, PartialEq, Eq)]
pub struct Package {
    pub group: String,
    pub artifact: String,
    pub version: String,
    pub configure_script: Option<String>,
    pub description: Option<String>,
    pub authors: Option<Vec<Author>>,
    pub license: Option<String>,
    pub builds: Option<Pattern>,
    pub rules: Option<Pattern>,
    pub toolchains: Option<Pattern>,
    pub peers: Option<Pattern>,
    /// Each key must be a loose identifier.
    pub dependencies: Option<Vec<(String, PackageSource)>>,
    pub mount_config: Option<String>,
    /// Each key must be a loose identifier.
    pub config: Option<Vec<(String, ConfigValue)>>,
}

/// Text order: code point by code point, a proper prefix first (the order of `String`).
pub open spec fn key_lt(a: Seq<char>, b: Seq<char>) -> bool
    decreases a.len(),
{
    if a.len() == 0 {
        b.len() > 0
    } else if b.len() == 0 {
        false
    } else if a[0] != b[0] {
        a[0] < b[0]
    } else {
        key_lt(a.drop_first(), b.drop_first())
    }
}

/// Two texts are equal or one comes before the other.
pub proof fn lemma_key_lt_total(a: Seq<char>, b: Seq<char>)
    ensures
        a == b || key_lt(a, b) || key_lt(b, a),
    decreases a.len(),
{
    if a.len() > 0 && b.len() > 0 && a[0] == b[0] {
        lemma_key_lt_total(a.drop_first(), b.drop_first());
        if a.drop_first() == b.drop_first() {
            assert(a =~= seq![a[0]] + a.drop_first());
            assert(b =~= seq![b[0]] + b.drop_first());
        }
    } else if a.len() == 0 && b.len() == 0 {
        assert(a =~= b);
    }
}

/// Text order is transitive.
pub proof fn lemma_key_lt_trans(a: Seq<char>, b: Seq<char>, c: Seq<char>)
    requires
        key_lt(a, b),
        key_lt(b, c),
    ensures
        key_lt(a, c),
    decreases a.len(),
{
    if a.len() > 0 && a[0] == b[0] && b[0] == c[0] {
        lemma_key_lt_trans(a.drop_first(), b.drop_first(), c.drop_first());
    }
}

/// The least key, in text order, that is not a loose identifier: the first such key
/// that a map ordered by key lists.
pub open spec fn least_bad_key<V>(entries: Seq<(String, V)>) -> Option<Seq<char>>
    decreases entries.len(),
{
    if entries.len() == 0 {
        None
    } else {
        let rest = least_bad_key(entries.drop_first());
        let k = entries[0].0@;
        if ident_spec(k, true) {
            rest
        } else {
            match rest {
                Some(r) => if key_lt(r, k) {
                    Some(r)
                } else {
                    Some(k)
                },
                None => Some(k),
            }
        }
    }
}

/// `least_bad_key` is a key of the entries that is not a loose identifier and comes
/// no later than any such key; when it is `None` every key is a loose identifier.
pub proof fn law_least_bad_key<V>(entries: Seq<(String, V)>)
    ensures
        match least_bad_key(entries) {
            Some(k) => (exists|j: int|
                0 <= j < entries.len() && #[trigger] entries[j].0@ == k && !ident_spec(k, true))
                && forall|j: int|
                0 <= j < entries.len() && !ident_spec(#[trigger] entries[j].0@, true) ==> entries[j].0@
                    == k || key_lt(k, entries[j].0@),
            None => forall|j: int| 0 <= j < entries.len() ==> ident_spec(#[trigger] entries[j].0@, true),
        },
    decreases entries.len(),
{
    if entries.len() > 0 {
        let rest = entries.drop_first();
        law_least_bad_key(rest);
        let k0 = entries[0].0@;
        assert forall|j: int| 0 < j < entries.len() implies #[trigger] entries[j] == rest[j - 1] by {}
        match least_bad_key(rest) {
            Some(r) => {
                let w = choose|j: int| 0 <= j < rest.len() && #[trigger] rest[j].0@ == r && !ident_spec(r, true);
                assert(entries[w + 1].0@ == r);
                if !ident_spec(k0, true) && !key_lt(r, k0) {
                    lemma_key_lt_total(r, k0);
                    assert forall|j: int|
                        0 <= j < entries.len() && !ident_spec(#[trigger] entries[j].0@, true) implies entries[j].0@
                            == k0 || key_lt(k0, entries[j].0@) by {
                        if j > 0 {
                            assert(rest[j - 1].0@ == entries[j].0@);
                            if entries[j].0@ != r && k0 != r {
                                lemma_key_lt_trans(k0, r, entries[j].0@);
                            }
                        }
                    }
                    assert(entries[0].0@ == k0);
                } else {
                    assert forall|j: int|
                        0 <= j < entries.len() && !ident_spec(#[trigger] entries[j].0@, true) implies entries[j].0@
                            == r || key_lt(r, entries[j].0@) by {
                        if j > 0 {
                            assert(rest[j - 1].0@ == entries[j].0@);
                        }
                    }
                }
            },
            None => {
                assert forall|j: int|
                    0 < j < entries.len() implies ident_spec(#[trigger] entries[j].0@, true) by {
                    assert(rest[j - 1].0@ == entries[j].0@);
                }
                assert(entries[0].0@ == k0);
            },
        }
    }
}

/// The least bad key of an optional map.
pub open spec fn least_bad_key_of<V>(entries: Option<Vec<(String, V)>>) -> Option<Seq<char>> {
    match entries {
        Some(v) => least_bad_key(v@),
        None => None,
    }
}

/// Whether `a` comes before `b` in text order.
fn key_less(a: &String, b: &String) -> (r: bool)
    ensures
        r == key_lt(a@, b@),
{
    let x = chars_of(a.as_str());
    let y = chars_of(b.as_str());
    let mut i: usize = 0;
    assert(x@.skip(0) =~= x@);
    assert(y@.skip(0) =~= y@);
    while i < x.len() && i < y.len()
        invariant
            x@ == a@,
            y@ == b@,
            i <= x@.len(),
            i <= y@.len(),
            key_lt(a@, b@) == key_lt(x@.skip(i as int), y@.skip(i as int)),
        decreases x.len() - i,
    {
        if x[i] != y[i] {
            assert(x@.skip(i as int)[0] == x@[i as int]);
            assert(y@.skip(i as int)[0] == y@[i as int]);
            return x[i] < y[i];
        }
        assert(x@.skip(i as int).drop_first() =~= x@.skip(i + 1));
        assert(y@.skip(i as int).drop_first() =~= y@.skip(i + 1));
        i = i + 1;
    }
    i < y.len()
}

/// The least key of `entries` that is not a loose identifier.
pub(crate) fn find_bad_key<V>(entries: &Vec<(String, V)>) -> (r: Option<&String>)
    ensures
        match least_bad_key(entries@) {
            Some(k) => r matches Some(s) && s@ == k,
            None => r is None,
        },
{
    let n = entries.len();
    let mut best: Option<usize> = None;
    let mut i: usize = n;
    assert(entries@.skip(n as int) =~= Seq::<(String, V)>::empty());
    while i > 0
        invariant
            n == entries@.len(),
            i <= n,
            match best {
                None => least_bad_key(entries@.skip(i as int)) is None,
                Some(b) => b < n && least_bad_key(entries@.skip(i as int)) == Some(entries@[b as int].0@),
            },
        decreases i,
    {
        i = i - 1;
        let ghost tail = entries@.skip(i as int);
        assert(tail.drop_first() =~= entries@.skip(i + 1));
        assert(tail[0] == entries@[i as int]);
        if !is_loose_ident(entries[i].0.as_str()) {
            match best {
                None => {
                    best = Some(i);
                },
                Some(b) => {
                    if !key_less(&entries[b].0, &entries[i].0) {
                        best = Some(i);
                    }
                },
            }
        }
    }
    assert(entries@.skip(0) =~= entries@);
    match best {
        Some(b) => Some(&entries[b].0),
        None => None,
    }
}

impl Package {
    /// Every config key, then every dependency key, must be a loose identifier; the
    /// least (in key order) that is not is reported.
    pub fn validate(&self) -> (r: Result<(), PackageResolveError>)
        ensures
            match least_bad_key_of(self.config) {
                Some(k) => r matches Err(PackageResolveError::InvalidConfigKey(s)) && s@ == k,
                None => match least_bad_key_of(self.dependencies) {
                    Some(k) => r matches Err(PackageResolveError::InvalidDependencyKey(s)) && s@
                        == k,
                    None => r is Ok,
                },
            },
    {
        match &self.config {
            Some(cfg) => match find_bad_key(cfg) {
                Some(k) => {
                    return Err(PackageResolveError::InvalidConfigKey(k.clone()));
                },
                None => {},
            },
            None => {},
        }
        match &self.dependencies {
            Some(deps) => match find_bad_key(deps) {
                Some(k) => {
                    return Err(PackageResolveError::InvalidDependencyKey(k.clone()));
                },
                None => {},
            },
            None => {},
        }
        Ok(())
    }
}

/// Interned patterns taken together: a manifest's pattern, then those added to it.
#[derive(Debug, Clone, PartialEq, Eq)]
pub struct PatternGroup {
    pub patterns: Vec<InternedPattern>,
}

/// How many texts the patterns hold together.
pub open spec fn group_len(ps: Seq<Pattern>) -> nat
    decreases ps.len(),
{
    if ps.len() == 0 {
        0
    } else {
        group_len(ps.drop_last()) + ps.last().patterns@.len()
    }
}

/// A manifest's optional pattern followed by the added ones.
pub open spec fn group_of(first: Option<Pattern>, extra: Seq<Pattern>) -> Seq<Pattern> {
    match first {
        Some(p) => seq![p] + extra,
        None => extra,
    }
}

/// Each interned pattern names the pattern at its place.
pub open spec fn group_named(m: Seq<Seq<char>>, ps: Seq<Pattern>, g: Seq<InternedPattern>) -> bool {
    &&& ps.len() == g.len()
    &&& forall|j: int| 0 <= j < ps.len() ==> pattern_named(m, ps[j], #[trigger] g[j])
}

pub proof fn lemma_group_named_survives(
    a: Seq<Seq<char>>,
    b: Seq<Seq<char>>,
    ps: Seq<Pattern>,
    g: Seq<InternedPattern>,
)
    requires
        extends(a, b),
        group_named(a, ps, g),
    ensures
        group_named(b, ps, g),
{
    assert forall|j: int| 0 <= j < ps.len() implies pattern_named(b, ps[j], #[trigger] g[j]) by {
        lemma_pattern_named_survives(a, b, Some(ps[j]), Some(g[j]));
    }
}

proof fn lemma_group_len_take(ps: Seq<Pattern>, k: int)
    requires
        0 <= k < ps.len(),
    ensures
        group_len(ps.take(k + 1)) == group_len(ps.take(k)) + ps[k].patterns@.len(),
        group_len(ps.take(k + 1)) <= group_len(ps),
    decreases ps.len(),
{
    assert(ps.take(k + 1).drop_last() =~= ps.take(k));
    if k + 1 < ps.len() {
        lemma_group_len_take(ps.drop_last(), k);
        assert(ps.drop_last().take(k + 1) =~= ps.take(k + 1));
    } else {
        assert(ps.take(k + 1) =~= ps);
    }
}

/// Interns a manifest's optional pattern, then each added pattern, in order.
fn intern_group(first: Option<Pattern>, extra: Vec<Pattern>, interner: &mut Interner) -> (r:
    PatternGroup)
    requires
        old(interner)@.len() + opt_pattern_len(first) + group_len(extra@) < usize::MAX,
    ensures
        extends(old(interner)@, final(interner)@),
        final(interner)@.len() <= old(interner)@.len() + opt_pattern_len(first) + group_len(
            extra@,
        ),
        group_named(final(interner)@, group_of(first, extra@), r.patterns@),
{
    let ghost m0 = interner@;
    let ghost e0 = extra@;
    let ghost all = group_of(first, extra@);
    let mut out: Vec<InternedPattern> = Vec::new();
    let ghost off: int = if first is Some { 1 } else { 0 };
    match first {
        Some(p) => {
            let ghost p0 = p;
            match intern_opt_pattern(Some(p), interner) {
                Some(ip) => {
                    out.push(ip);
                },
                None => {
                    assert(false);
                },
            }
            proof {
                assert(all[0] == p0);
            }
        },
        None => {
            proof {
                lemma_extends_refl(m0);
            }
        },
    }
    let mut rest = extra;
    proof {
        assert(e0.skip(0) =~= e0);
        assert(e0.take(0) =~= Seq::<Pattern>::empty());
    }
    while rest.len() > 0
        invariant
            e0 == extra@,
            all == group_of(first, e0),
            off == (if first is Some { 1int } else { 0int }),
            m0.len() + opt_pattern_len(first) + group_len(e0) < usize::MAX,
            out@.len() >= off,
            out@.len() - off + rest@.len() == e0.len(),
            rest@ == e0.skip(out@.len() - off),
            extends(m0, interner@),
            interner@.len() <= m0.len() + opt_pattern_len(first) + group_len(e0.take(out@.len() - off)),
            group_named(interner@, all.take(out@.len() as int), out@),
        decreases rest.len(),
    {
        let ghost k = out@.len() - off;
        let ghost before = interner@;
        let p = rest.remove(0);
        assert(e0[k] == p);
        proof {
            lemma_group_len_take(e0, k);
        }
        let ip = match intern_opt_pattern(Some(p), interner) {
            Some(ip) => ip,
            None => {
                assert(false);
                unreached()
            },
        };
        proof {
            lemma_extends_trans(m0, before, interner@);
            lemma_group_named_survives(before, interner@, all.take(k + off), out@);
        }
        out.push(ip);
        proof {
            assert(all[k + off] == e0[k]);
            assert(all.take(k + off + 1) =~= all.take(k + off).push(e0[k]));
            assert(rest@ =~= e0.skip(k + 1));
        }
    }
    proof {
        assert(all.take(out@.len() as int) =~= all);
        assert(e0.take(e0.len() as int) =~= e0);
    }
    PatternGroup { patterns: out }
}

/// A package on its way to being resolved: its manifest and the patterns added to
/// it. The manifest's configuration values are carried as declared.
#[derive(Debug, Clone, PartialEq, Eq)]
pub struct ResolvingPackage {
    pub original: Package,
    pub additional_peers: Vec<Pattern>,
    pub additional_builds: Vec<Pattern>,
    pub additional_rules: Vec<Pattern>,
    pub additional_toolchains: Vec<Pattern>,
}

/// A package whose texts are interned and checked.
#[derive(Debug, Clone, PartialEq, Eq)]
pub struct ResolvedPackage {
    pub group: InternedGroup,
    pub artifact: InternedAtom,
    pub version: InternedVersion,
    pub configure_script: Option<String>,
    pub description: Option<String>,
    pub authors: Option<Vec<InternedAuthor>>,
    pub license: Option<InternedString>,
    pub builds: PatternGroup,
    pub rules: PatternGroup,
    pub toolchains: PatternGroup,
    pub peers: PatternGroup,
    pub dependencies: Option<Vec<(String, InternedPackageSource)>>,
    pub mount_config: Option<InternedAtom>,
    pub config: Option<Vec<(String, ConfigValue)>>,
}

/// Everything `resolve` checks after the keys.
pub open spec fn package_parts_ok(p: Package) -> bool {
    &&& group_ok(p.group@)
    &&& ident_spec(p.artifact@, true)
    &&& semver_accepts(p.version@)
    &&& deps_ok(p.dependencies)
    &&& match p.mount_config {
        Some(s) => ident_spec(s@, true),
        None => true,
    }
}

/// How many texts resolving a package may intern at most.
pub open spec fn resolving_interns(r: ResolvingPackage) -> nat {
    5 + 2 * opt_len(r.original.authors) + opt_pattern_len(r.original.builds) + opt_pattern_len(
        r.original.rules,
    ) + opt_pattern_len(r.original.toolchains) + opt_pattern_len(r.original.peers) + group_len(
        r.additional_builds@,
    ) + group_len(r.additional_rules@) + group_len(r.additional_toolchains@) + group_len(
        r.additional_peers@,
    ) + 3 * opt_len(r.original.dependencies)
}

/// Every interned field of `r` stands for the field of the manifest in `m`, each pattern
/// group for the manifest's pattern followed by the added ones, and the other fields
/// are equal.
pub open spec fn package_named(m: Seq<Seq<char>>, rp: ResolvingPackage, r: ResolvedPackage) -> bool {
    let p = rp.original;
    &&& resolve_spec(m, r.group.0.0 as int) == Some(p.group@)
    &&& resolve_spec(m, r.artifact.0.0 as int) == Some(p.artifact@)
    &&& resolve_spec(m, r.version.0.0 as int) == Some(p.version@)
    &&& opt_text_eq(r.configure_script, p.configure_script)
    &&& opt_text_eq(r.description, p.description)
    &&& opt_authors_named(m, p.authors, r.authors)
    &&& opt_text_named(m, p.license, r.license)
    &&& group_named(m, group_of(p.builds, rp.additional_builds@), r.builds.patterns@)
    &&& group_named(m, group_of(p.rules, rp.additional_rules@), r.rules.patterns@)
    &&& group_named(m, group_of(p.toolchains, rp.additional_toolchains@), r.toolchains.patterns@)
    &&& group_named(m, group_of(p.peers, rp.additional_peers@), r.peers.patterns@)
    &&& opt_deps_named(m, p.dependencies, r.dependencies, false)
    &&& opt_atom_named(m, p.mount_config, r.mount_config)
    &&& opt_list_eq(r.config, p.config)
}

impl ResolvingPackage {
    /// A package with nothing added to its patterns yet.
    pub fn new(original: Package) -> (r: Self)
        ensures
            r.original == original,
            r.additional_peers@.len() == 0,
            r.additional_builds@.len() == 0,
            r.additional_rules@.len() == 0,
            r.additional_toolchains@.len() == 0,
    {
        ResolvingPackage {
            original,
            additional_peers: Vec::new(),
            additional_builds: Vec::new(),
            additional_rules: Vec::new(),
            additional_toolchains: Vec::new(),
        }
    }
}

impl ResolvingPackage {
    /// Checks the keys, then interns the group, artifact, version, authors, license,
    /// pattern groups, dependency sources and mount point, in that order.
    #[verifier::rlimit(40)]
    pub fn resolve(self, interner: &mut Interner) -> (r: Result<ResolvedPackage, PackageResolveError>)
        requires
            old(interner)@.len() + resolving_interns(self) + 5 < usize::MAX,
        ensures
            match least_bad_key_of(self.original.config) {
                Some(k) => r matches Err(PackageResolveError::InvalidConfigKey(s)) && s@ == k,
                None => match least_bad_key_of(self.original.dependencies) {
                    Some(k) => r matches Err(PackageResolveError::InvalidDependencyKey(s)) && s@
                        == k,
                    None => (r is Ok) == package_parts_ok(self.original),
                },
            },
            least_bad_key_of(self.original.config) is None && least_bad_key_of(
                self.original.dependencies,
            ) is None && !group_ok(self.original.group@) ==> (r matches Err(
                PackageResolveError::PackageParseError(_),
            )),
            least_bad_key_of(self.original.config) is None && least_bad_key_of(
                self.original.dependencies,
            ) is None && group_ok(self.original.group@) && !ident_spec(self.original.artifact@, true)
                ==> (r matches Err(PackageResolveError::IdParseError(t, part, _)) && t@
                == self.original.artifact@ && part@ == "artifact"@),
            least_bad_key_of(self.original.config) is None && least_bad_key_of(
                self.original.dependencies,
            ) is None && group_ok(self.original.group@) && ident_spec(self.original.artifact@, true)
                && !semver_accepts(self.original.version@) ==> (r matches Err(
                PackageResolveError::PackageParseError(_),
            )),
            r matches Ok(p) ==> extends(old(interner)@, final(interner)@) && package_named(
                final(interner)@,
                self,
                p,
            ),
    {
        match self.original.validate() {
            Ok(()) => {},
            Err(e) => {
                return Err(e);
            },
        }
        let ghost this = self;
        let ghost m0 = interner@;
        let ResolvingPackage {
            original,
            additional_peers,
            additional_builds,
            additional_rules,
            additional_toolchains,
        } = self;
        let Package {
            group,
            artifact,
            version,
            configure_script,
            description,
            authors,
            license,
            builds,
            rules,
            toolchains,
            peers,
            dependencies,
            mount_config,
            config,
        } = original;
        // group
        let igroup = match InternedGroup::try_parse(group.as_str(), interner) {
            Ok(g) => g,
            Err(e) => {
                return Err(PackageResolveError::PackageParseError(e));
            },
        };
        let ghost m1 = interner@;
        proof {
            lemma_intern_step(m0, group@);
            reveal_strlit("artifact");
        }
        // artifact
        let iartifact = match InternedAtom::try_parse(artifact.as_str(), interner) {
            Ok(a) => a,
            Err(e) => {
                return Err(PackageResolveError::IdParseError(artifact, "artifact", e));
            },
        };
        let ghost m2 = interner@;
        proof {
            lemma_intern_step(m1, artifact@);
        }
        // version
        let iversion = match InternedVersion::try_parse(version.as_str(), interner) {
            Ok(v) => v,
            Err(e) => {
                return Err(PackageResolveError::PackageParseError(e));
            },
        };
        let ghost m3 = interner@;
        proof {
            lemma_intern_step(m2, version@);
        }
        // authors
        let iauthors = match &authors {
            Some(v) => Some(intern_authors(v, interner)),
            None => {
                proof {
                    lemma_extends_refl(m3);
                }
                None
            },
        };
        let ghost m4 = interner@;
        // license
        let ilicense = match &license {
            Some(t) => match interner.get_or_intern(t.as_str()) {
                Ok(k) => {
                    proof {
                        lemma_intern_step(m4, t@);
                    }
                    Some(k)
                },
                Err(_) => unreached(),
            },
            None => {
                proof {
                    lemma_extends_refl(m4);
                }
                None
            },
        };
        let ghost m5 = interner@;
        let ibuilds = intern_group(builds, additional_builds, interner);
        let ghost m6 = interner@;
        let irules = intern_group(rules, additional_rules, interner);
        let ghost m7 = interner@;
        let itoolchains = intern_group(toolchains, additional_toolchains, interner);
        let ghost m8 = interner@;
        let ipeers = intern_group(peers, additional_peers, interner);
        let ghost m9 = interner@;
        // dependencies
        let ideps = match dependencies {
            Some(d) => match intern_deps(d, interner) {
                Ok(v) => Some(v),
                Err(e) => {
                    return Err(PackageResolveError::PackageSourceResolveError(e));
                },
            },
            None => {
                proof {
                    lemma_extends_refl(m9);
                }
                None
            },
        };
        let ghost m10 = interner@;
        // mount point
        let imount = match &mount_config {
            Some(s) => match InternedAtom::try_parse(s.as_str(), interner) {
                Ok(a) => {
                    proof {
                        lemma_intern_step(m10, s@);
                    }
                    Some(a)
                },
                Err(e) => {
                    return Err(PackageResolveError::IdParseError(s.clone(), "mount_config", e));
                },
            },
            None => {
                proof {
                    lemma_extends_refl(m10);
                }
                None
            },
        };
        let ghost m11 = interner@;
        let r = ResolvedPackage {
            group: igroup,
            artifact: iartifact,
            version: iversion,
            configure_script,
            description,
            authors: iauthors,
            license: ilicense,
            builds: ibuilds,
            rules: irules,
            toolchains: itoolchains,
            peers: ipeers,
            dependencies: ideps,
            mount_config: imount,
            config,
        };
        let ghost rr = r;
        proof {
            lemma_extends_trans(m9, m10, m11);
            lemma_extends_trans(m8, m9, m11);
            lemma_extends_trans(m7, m8, m11);
            lemma_extends_trans(m6, m7, m11);
            lemma_extends_trans(m5, m6, m11);
            lemma_extends_trans(m4, m5, m11);
            lemma_extends_trans(m3, m4, m11);
            lemma_extends_trans(m2, m3, m11);
            lemma_extends_trans(m1, m2, m11);
            lemma_extends_trans(m0, m1, m11);
            lemma_resolve_survives(m1, m11, igroup.0.0 as int);
            lemma_resolve_survives(m2, m11, iartifact.0.0 as int);
            lemma_resolve_survives(m3, m11, iversion.0.0 as int);
            if let (Some(a), Some(i)) = (this.original.authors, rr.authors) {
                lemma_authors_named_survives(m4, m11, a@, i@);
            }
            if let Some(k) = ilicense {
                lemma_resolve_survives(m5, m11, k.0 as int);
            }
            lemma_group_named_survives(
                m6,
                m11,
                group_of(this.original.builds, this.additional_builds@),
                rr.builds.patterns@,
            );
            lemma_group_named_survives(
                m7,
                m11,
                group_of(this.original.rules, this.additional_rules@),
                rr.rules.patterns@,
            );
            lemma_group_named_survives(
                m8,
                m11,
                group_of(this.original.toolchains, this.additional_toolchains@),
                rr.toolchains.patterns@,
            );
            lemma_group_named_survives(
                m9,
                m11,
                group_of(this.original.peers, this.additional_peers@),
                rr.peers.patterns@,
            );
            if let (Some(d), Some(i)) = (this.original.dependencies, rr.dependencies) {
                lemma_deps_named_survives(m10, m11, d@, i@, false);
            }
        }
        Ok(r)
    }
}

impl ResolvedPackage {
    /// `group:artifact`.
    pub fn get_artifact_id(&self) -> (r: InternedArtifactId)
        ensures
            r.group == self.group,
            r.name == self.artifact,
    {
        InternedArtifactId { group: self.group, name: self.artifact }
    }

    /// `group:artifact@version`.
    pub fn get_id(&self) -> (r: InternedPackageId)
        ensures
            r.name.group == self.group,
            r.name.name == self.artifact,
            r.version == self.version,
    {
        InternedPackageId::new(self.get_artifact_id(), self.version)
    }
}

} // verus!
