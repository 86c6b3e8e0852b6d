//! Project manifests: their checks, their interned form, and back.
use vstd::prelude::*;

use crate::author::{
    author_named, author_ok, field_ok, lemma_author_named_survives, Author, AuthorError,
    InternedAuthor,
};
use crate::config_value::{ConfigDefault, ConfigValue};
use crate::id::{ident_spec, IdParseError, InternedAtom};
use crate::intern::{intern_spec, resolve_spec, InternedString, Interner, InternerError};
use crate::package::{find_bad_key, least_bad_key_of};
use crate::package_id::{
    extends, group_ok, lemma_extends_refl, lemma_extends_trans, lemma_intern_step,
    lemma_resolve_survives, package_intern, package_ok, package_text, semver_accepts,
    InternedGroup, InternedVersion, PackageIdParseError,
};
use crate::package_source::{InternedPackageSource, PackageSource, PackageSourceResolveError};
use crate::path::spec::{from_path_spec, leads_up};
use crate::pattern::{
    lemma_intern_all_len, pattern_keys, pattern_texts, resolve_all, InternedPattern,
    Pattern,
};

verus! {

/// Why a project was refused.
#[derive(Debug)]
pub enum ProjectResolveError {
    /// the project dependencies key is not a valid xid_loose_ident
    InvalidDependencyKey(String),
    /// the project config key is not a valid xid_loose_ident
    InvalidConfigKey(String),
    /// failed to parse the group or the version of the project
    PackageParseError(PackageIdParseError),
    /// failed to resolve a package source of the project
    PackageSourceResolveError(PackageSourceResolveError),
    /// failed to parse the id of a project part (the text, the part, the error)
    IdParseError(String, &'static str, IdParseError),
    /// author resolution error
    AuthorError(AuthorError),
    /// interner error
    InternerError(InternerError),
}

/// A project manifest.
#[derive(Debug, Clone, PartialEq, Eq)]
pub struct Project {
    pub group: String,
    pub artifact: String,
    pub version: String,
    pub configure_script: Option<String>,
    pub description: Option<String>,
    pub authors: Option<Vec<Author>>,
    pub license: Option<String>,
    pub builds: Option<Pattern>,
    pub rules: Option<Pattern>,
    pub toolchains: Option<Pattern>,
    pub subprojects: Option<Pattern>,
    /// Each key must be a loose identifier.
    pub dependencies: Option<Vec<(String, PackageSource)>>,
    /// Defaults to `config` when absent.
    pub mount_config: Option<String>,
    /// Each key must be a loose identifier.
    pub config: Option<Vec<(String, ConfigValue)>>,
}

/// A project whose texts are interned and checked. The configuration is always
/// present (empty when the project declares none); its values are kept as declared.
#[derive(Debug, Clone, PartialEq, Eq)]
pub struct ResolvedProject {
    pub group: InternedGroup,
    pub artifact: String,
    pub version: InternedVersion,
    pub configure_script: Option<String>,
    pub description: Option<String>,
    pub authors: Option<Vec<InternedAuthor>>,
    pub license: Option<InternedString>,
    pub builds: Option<InternedPattern>,
    pub rules: Option<InternedPattern>,
    pub toolchains: Option<InternedPattern>,
    pub subprojects: Option<InternedPattern>,
    pub dependencies: Option<Vec<(String, InternedPackageSource)>>,
    pub mount_config: Option<InternedAtom>,
    pub config: Vec<(String, ConfigValue)>,
}

/// The declared configuration, or none.
pub open spec fn config_or_empty(c: Option<Vec<(String, ConfigValue)>>) -> Seq<(String, ConfigValue)> {
    match c {
        Some(v) => v@,
        None => Seq::empty(),
    }
}

/// The keys of `i` name the texts of `p` in `m`, with the same flags.
pub open spec fn pattern_named(m: Seq<Seq<char>>, p: Pattern, i: InternedPattern) -> bool {
    &&& forall|j: int|
        0 <= j < pattern_keys(&i).len() ==> 0 <= #[trigger] pattern_keys(&i)[j] < m.len()
    &&& resolve_all(m, pattern_keys(&i)) == pattern_texts(&p)
    &&& i.following_ignore_files == p.following_ignore_files
    &&& i.ignore_hidden_files == p.ignore_hidden_files
}

pub open spec fn opt_pattern_named(
    m: Seq<Seq<char>>,
    p: Option<Pattern>,
    i: Option<InternedPattern>,
) -> bool {
    match (p, i) {
        (None, None) => true,
        (Some(p), Some(i)) => pattern_named(m, p, i),
        _ => false,
    }
}

pub open spec fn opt_text_named(m: Seq<Seq<char>>, t: Option<String>, k: Option<InternedString>) -> bool {
    match (t, k) {
        (None, None) => true,
        (Some(t), Some(k)) => resolve_spec(m, k.0 as int) == Some(t@),
        _ => false,
    }
}

pub open spec fn opt_atom_named(m: Seq<Seq<char>>, t: Option<String>, a: Option<InternedAtom>) -> bool {
    match (t, a) {
        (None, None) => true,
        (Some(t), Some(a)) => resolve_spec(m, a.0.0 as int) == Some(t@),
        _ => false,
    }
}

/// Two optional texts with the same characters.
pub open spec fn opt_text_eq(a: Option<String>, b: Option<String>) -> bool {
    match (a, b) {
        (None, None) => true,
        (Some(x), Some(y)) => x@ == y@,
        _ => false,
    }
}

/// The interned source stands for the source: a registry package by the text of
/// its keys, a path by its text (its normal form unless `exact`), others by their
/// texts.
pub open spec fn source_named(
    m: Seq<Seq<char>>,
    s: PackageSource,
    i: InternedPackageSource,
    exact: bool,
) -> bool {
    match (s, i) {
        (PackageSource::Registry { package }, InternedPackageSource::Registry { package: p }) =>
            package_text(m, p.name.group.0.0 as int, p.name.name.0.0 as int, p.version.0.0 as int)
            == Some(package@),
        (PackageSource::Git { repo, checkout }, InternedPackageSource::Git { repo: r, checkout: c }) =>
            r@ == repo@ && opt_text_eq(c, checkout),
        (PackageSource::Http { url }, InternedPackageSource::Http { url: u }) => u@ == url@,
        (PackageSource::Path { path }, InternedPackageSource::Path { path: ip }) => if exact {
            resolve_spec(m, ip.key() as int) == Some(path@)
        } else {
            from_path_spec(path@) matches Ok(t) && resolve_spec(m, ip.key() as int) == Some(t)
        },
        _ => false,
    }
}

/// A source that interning accepts.
pub open spec fn source_ok(s: PackageSource) -> bool {
    match s {
        PackageSource::Registry { package } => package_ok(package@),
        PackageSource::Path { path } => from_path_spec(path@) matches Ok(t) && !leads_up(t),
        _ => true,
    }
}

pub open spec fn deps_named(
    m: Seq<Seq<char>>,
    d: Seq<(String, PackageSource)>,
    i: Seq<(String, InternedPackageSource)>,
    exact: bool,
) -> bool {
    &&& d.len() == i.len()
    &&& forall|j: int|
        0 <= j < d.len() ==> (#[trigger] i[j]).0@ == d[j].0@ && source_named(
            m,
            d[j].1,
            i[j].1,
            exact,
        )
}

pub open spec fn opt_deps_named(
    m: Seq<Seq<char>>,
    d: Option<Vec<(String, PackageSource)>>,
    i: Option<Vec<(String, InternedPackageSource)>>,
    exact: bool,
) -> bool {
    match (d, i) {
        (None, None) => true,
        (Some(d), Some(i)) => deps_named(m, d@, i@, exact),
        _ => false,
    }
}

pub open spec fn authors_named(m: Seq<Seq<char>>, a: Seq<Author>, i: Seq<InternedAuthor>) -> bool {
    &&& a.len() == i.len()
    &&& forall|j: int| 0 <= j < a.len() ==> author_named(m, a[j], #[trigger] i[j])
}

pub open spec fn opt_authors_named(
    m: Seq<Seq<char>>,
    a: Option<Vec<Author>>,
    i: Option<Vec<InternedAuthor>>,
) -> bool {
    match (a, i) {
        (None, None) => true,
        (Some(a), Some(i)) => authors_named(m, a@, i@),
        _ => false,
    }
}

/// Every interned field of `r` stands for the field of `p` in `m`, and the other
/// fields are equal. Paths of sources are taken in their normal form unless `exact`.
pub open spec fn project_named(
    m: Seq<Seq<char>>,
    p: Project,
    r: ResolvedProject,
    exact: bool,
) -> bool {
    &&& resolve_spec(m, r.group.0.0 as int) == Some(p.group@)
    &&& r.artifact@ == p.artifact@
    &&& resolve_spec(m, r.version.0.0 as int) == Some(p.version@)
    &&& opt_text_eq(r.configure_script, p.configure_script)
    &&& opt_text_eq(r.description, p.description)
    &&& opt_authors_named(m, p.authors, r.authors)
    &&& opt_text_named(m, p.license, r.license)
    &&& opt_pattern_named(m, p.builds, r.builds)
    &&& opt_pattern_named(m, p.rules, r.rules)
    &&& opt_pattern_named(m, p.toolchains, r.toolchains)
    &&& opt_pattern_named(m, p.subprojects, r.subprojects)
    &&& opt_deps_named(m, p.dependencies, r.dependencies, exact)
    &&& opt_atom_named(m, p.mount_config, r.mount_config)
    &&& r.config@ == config_or_empty(p.config)
}

/// Two optional lists with the same elements.
pub open spec fn opt_list_eq<T>(a: Option<Vec<T>>, b: Option<Vec<T>>) -> bool {
    match (a, b) {
        (None, None) => true,
        (Some(x), Some(y)) => x@ == y@,
        _ => false,
    }
}

/// Every source of the dependencies is accepted.
pub open spec fn deps_ok(d: Option<Vec<(String, PackageSource)>>) -> bool {
    match d {
        Some(v) => forall|j: int| 0 <= j < v@.len() ==> source_ok(#[trigger] v@[j].1),
        None => true,
    }
}

/// Everything `resolve` checks after the keys.
pub open spec fn project_parts_ok(p: Project) -> bool {
    &&& group_ok(p.group@)
    &&& semver_accepts(p.version@)
    &&& deps_ok(p.dependencies)
    &&& match p.mount_config {
        Some(s) => ident_spec(s@, true),
        None => true,
    }
}

pub open spec fn opt_len<T>(v: Option<Vec<T>>) -> nat {
    match v {
        Some(v) => v@.len(),
        None => 0,
    }
}

pub open spec fn opt_pattern_len(p: Option<Pattern>) -> nat {
    match p {
        Some(p) => p.patterns@.len(),
        None => 0,
    }
}

/// How many texts resolving a project may intern at most.
pub open spec fn project_interns(p: Project) -> nat {
    4 + 2 * opt_len(p.authors) + opt_pattern_len(p.builds) + opt_pattern_len(p.rules)
        + opt_pattern_len(p.toolchains) + opt_pattern_len(p.subprojects) + 3 * opt_len(
        p.dependencies,
    )
}

pub proof fn lemma_pattern_named_survives(
    a: Seq<Seq<char>>,
    b: Seq<Seq<char>>,
    p: Option<Pattern>,
    i: Option<InternedPattern>,
)
    requires
        extends(a, b),
        opt_pattern_named(a, p, i),
    ensures
        opt_pattern_named(b, p, i),
{
    if let (Some(p), Some(i)) = (p, i) {
        let ks = pattern_keys(&i);
        assert forall|j: int| 0 <= j < ks.len() implies 0 <= #[trigger] ks[j] < b.len() by {}
        assert forall|j: int| 0 <= j < ks.len() implies b[ks[j]] == a[ks[j]] by {
            assert(0 <= ks[j] < a.len());
            assert(b[ks[j]] == b.take(a.len() as int)[ks[j]]);
        }
        assert(resolve_all(b, ks) =~= resolve_all(a, ks));
    }
}

pub proof fn lemma_source_named_survives(
    a: Seq<Seq<char>>,
    b: Seq<Seq<char>>,
    s: PackageSource,
    i: InternedPackageSource,
    exact: bool,
)
    requires
        extends(a, b),
        source_named(a, s, i, exact),
    ensures
        source_named(b, s, i, exact),
{
    match (s, i) {
        (PackageSource::Registry { package }, InternedPackageSource::Registry { package: p }) => {
            lemma_resolve_survives(a, b, p.name.group.0.0 as int);
            lemma_resolve_survives(a, b, p.name.name.0.0 as int);
            lemma_resolve_survives(a, b, p.version.0.0 as int);
        },
        (PackageSource::Path { path }, InternedPackageSource::Path { path: ip }) => {
            lemma_resolve_survives(a, b, ip.key() as int);
        },
        _ => {},
    }
}

pub proof fn lemma_deps_named_survives(
    a: Seq<Seq<char>>,
    b: Seq<Seq<char>>,
    d: Seq<(String, PackageSource)>,
    i: Seq<(String, InternedPackageSource)>,
    exact: bool,
)
    requires
        extends(a, b),
        deps_named(a, d, i, exact),
    ensures
        deps_named(b, d, i, exact),
{
    assert forall|j: int| 0 <= j < d.len() implies (#[trigger] i[j]).0@ == d[j].0@
        && source_named(b, d[j].1, i[j].1, exact) by {
        lemma_source_named_survives(a, b, d[j].1, i[j].1, exact);
    }
}

pub proof fn lemma_authors_named_survives(
    a: Seq<Seq<char>>,
    b: Seq<Seq<char>>,
    x: Seq<Author>,
    i: Seq<InternedAuthor>,
)
    requires
        extends(a, b),
        authors_named(a, x, i),
    ensures
        authors_named(b, x, i),
{
    assert forall|j: int| 0 <= j < x.len() implies author_named(b, x[j], #[trigger] i[j]) by {
        lemma_author_named_survives(a, b, x[j], i[j]);
    }
}

/// Interns each author in order.
pub(crate) fn intern_authors(authors: &Vec<Author>, interner: &mut Interner) -> (r: Vec<InternedAuthor>)
    requires
        old(interner)@.len() + 2 * authors@.len() + 2 < usize::MAX,
    ensures
        extends(old(interner)@, final(interner)@),
        final(interner)@.len() <= old(interner)@.len() + 2 * authors@.len(),
        authors_named(final(interner)@, authors@, r@),
{
    let ghost m0 = interner@;
    let mut out: Vec<InternedAuthor> = Vec::new();
    let mut i: usize = 0;
    proof {
        lemma_extends_refl(m0);
    }
    while i < authors.len()
        invariant
            m0.len() + 2 * authors@.len() + 2 < usize::MAX,
            i <= authors@.len(),
            extends(m0, interner@),
            interner@.len() <= m0.len() + 2 * i,
            out@.len() == i,
            forall|j: int| 0 <= j < i ==> author_named(interner@, authors@[j], #[trigger] out@[j]),
        decreases authors.len() - i,
    {
        let ghost before = interner@;
        let a = match authors[i].intern(interner) {
            Ok(a) => a,
            Err(_) => unreached(),
        };
        proof {
            lemma_extends_trans(m0, before, interner@);
            assert forall|j: int| 0 <= j < i implies author_named(
                interner@,
                authors@[j],
                #[trigger] out@[j],
            ) by {
                lemma_author_named_survives(before, interner@, authors@[j], out@[j]);
            }
        }
        out.push(a);
        i = i + 1;
    }
    out
}

/// Interns an optional pattern.
pub(crate) fn intern_opt_pattern(p: Option<Pattern>, interner: &mut Interner) -> (r: Option<InternedPattern>)
    requires
        old(interner)@.len() + opt_pattern_len(p) < usize::MAX,
    ensures
        extends(old(interner)@, final(interner)@),
        final(interner)@.len() <= old(interner)@.len() + opt_pattern_len(p),
        opt_pattern_named(final(interner)@, p, r),
{
    match p {
        Some(p) => {
            let ghost m0 = interner@;
            let ghost texts = pattern_texts(&p);
            let ghost follow = p.following_ignore_files;
            let ghost hidden = p.ignore_hidden_files;
            let ip = p.intern(interner);
            proof {
                lemma_intern_all_len(m0, texts);
                let ks = pattern_keys(&ip);
                assert(resolve_all(interner@, ks) =~= texts);
            }
            Some(ip)
        },
        None => {
            proof {
                lemma_extends_refl(interner@);
            }
            None
        },
    }
}

/// Interns each dependency's source in order.
pub(crate) fn intern_deps(deps: Vec<(String, PackageSource)>, interner: &mut Interner) -> (r: Result<
    Vec<(String, InternedPackageSource)>,
    PackageSourceResolveError,
>)
    requires
        old(interner)@.len() + 3 * deps@.len() + 3 < usize::MAX,
    ensures
        (r is Ok) == (forall|j: int| 0 <= j < deps@.len() ==> source_ok(#[trigger] deps@[j].1)),
        r matches Ok(v) ==> extends(old(interner)@, final(interner)@) && final(interner)@.len()
            <= old(interner)@.len() + 3 * deps@.len() && deps_named(final(interner)@, deps@, v@, false),
{
    let ghost d0 = deps@;
    let ghost m0 = interner@;
    let mut rest = deps;
    let mut out: Vec<(String, InternedPackageSource)> = Vec::new();
    proof {
        lemma_extends_refl(m0);
        assert(d0.skip(0) =~= d0);
    }
    while rest.len() > 0
        invariant
            d0 == deps@,
            m0.len() + 3 * d0.len() + 3 < usize::MAX,
            out@.len() + rest@.len() == d0.len(),
            rest@ == d0.skip(out@.len() as int),
            extends(m0, interner@),
            interner@.len() <= m0.len() + 3 * out@.len(),
            forall|j: int| 0 <= j < out@.len() ==> source_ok(#[trigger] d0[j].1),
            deps_named(interner@, d0.take(out@.len() as int), out@, false),
        decreases rest.len(),
    {
        let ghost before = interner@;
        let ghost k = out@.len() as int;
        let (key, src) = rest.remove(0);
        assert(d0[k] == (key, src));
        let ghost s0 = src;
        let interned = src.intern(interner);
        match interned {
            Ok(i) => {
                proof {
                    match s0 {
                        PackageSource::Registry { package } => {
                            lemma_package_intern_len(before, package@);
                            crate::package_id::law_package_id_round_trip(before, package@);
                        },
                        PackageSource::Path { path } => {
                            lemma_intern_step(before, from_path_spec(path@)->Ok_0);
                        },
                        _ => {
                            lemma_extends_refl(before);
                        },
                    }
                    lemma_extends_trans(m0, before, interner@);
                    lemma_deps_named_survives(before, interner@, d0.take(k), out@, false);
                    assert(source_ok(s0));
                }
                out.push((key, i));
                proof {
                    assert(d0.take(k + 1) =~= d0.take(k).push(d0[k]));
                    assert(rest@ =~= d0.skip(k + 1));
                }
            },
            Err(e) => {
                proof {
                    assert(!source_ok(s0));
                    assert(!source_ok(deps@[k].1));
                }
                return Err(e);
            },
        }
    }
    proof {
        assert(d0.take(d0.len() as int) =~= d0);
    }
    Ok(out)
}

/// Interning a package id grows the table by at most three.
proof fn lemma_package_intern_len(m: Seq<Seq<char>>, s: Seq<char>)
    ensures
        package_intern(m, s).0.len() <= m.len() + 3,
        extends(m, package_intern(m, s).0),
{
    let a = crate::package_id::package_artifact(s);
    let g = crate::package_id::artifact_group(a);
    let n = crate::package_id::artifact_name(a);
    let (m1, _) = intern_spec(m, g);
    let (m2, _) = intern_spec(m1, n);
    lemma_intern_step(m, g);
    lemma_intern_step(m1, n);
    lemma_intern_step(m2, crate::package_id::package_version(s));
    lemma_extends_trans(m, m1, m2);
    lemma_extends_trans(m, m2, package_intern(m, s).0);
}

fn copy_opt_text(t: &Option<String>) -> (r: Option<String>)
    ensures
        r == *t,
{
    match t {
        Some(s) => Some(s.clone()),
        None => None,
    }
}

fn copy_config_value(v: &ConfigValue) -> (r: ConfigValue)
    ensures
        r == *v,
{
    let default = match &v.default {
        Some(ConfigDefault::Label(s)) => Some(ConfigDefault::Label(s.clone())),
        Some(ConfigDefault::String { string }) => Some(ConfigDefault::String { string: string.clone() }),
        Some(ConfigDefault::Boolean(b)) => Some(ConfigDefault::Boolean(*b)),
        Some(ConfigDefault::Number(n)) => Some(ConfigDefault::Number(*n)),
        None => None,
    };
    ConfigValue { config_type: v.config_type, default }
}

fn copy_config(v: &Vec<(String, ConfigValue)>) -> (r: Vec<(String, ConfigValue)>)
    ensures
        r@ == v@,
{
    let mut out: Vec<(String, ConfigValue)> = Vec::new();
    let mut i: usize = 0;
    while i < v.len()
        invariant
            i <= v@.len(),
            out@ == v@.take(i as int),
        decreases v.len() - i,
    {
        out.push((v[i].0.clone(), copy_config_value(&v[i].1)));
        proof {
            assert(out@ =~= v@.take(i + 1));
        }
        i = i + 1;
    }
    assert(v@.take(i as int) =~= v@);
    out
}

/// The interner knows every key of the pattern.
pub open spec fn opt_pattern_known(m: Seq<Seq<char>>, p: Option<InternedPattern>) -> bool {
    match p {
        Some(ip) => forall|j: int| 0 <= j < ip.patterns@.len() ==> (#[trigger] ip.patterns@[j]).0 < m.len(),
        None => true,
    }
}

/// The interner knows the author's keys, and their texts are a name and an email.
pub open spec fn author_known(m: Seq<Seq<char>>, a: InternedAuthor) -> bool {
    match (resolve_spec(m, a.name.0 as int), resolve_spec(m, a.email.0 as int)) {
        (Some(n), Some(e)) => field_ok(n) && field_ok(e),
        _ => false,
    }
}

/// The interner knows the keys of the source.
pub open spec fn source_known(m: Seq<Seq<char>>, s: InternedPackageSource) -> bool {
    match s {
        InternedPackageSource::Registry { package: p } => package_text(
            m,
            p.name.group.0.0 as int,
            p.name.name.0.0 as int,
            p.version.0.0 as int,
        ) is Some,
        InternedPackageSource::Path { path } => resolve_spec(m, path.key() as int) is Some,
        _ => true,
    }
}

pub open spec fn opt_key_known(m: Seq<Seq<char>>, k: Option<InternedString>) -> bool {
    match k {
        Some(k) => resolve_spec(m, k.0 as int) is Some,
        None => true,
    }
}

/// Everything a resolved project needs from the interner to be read back.
pub open spec fn raw_ok(m: Seq<Seq<char>>, r: ResolvedProject) -> bool {
    &&& resolve_spec(m, r.group.0.0 as int) is Some
    &&& resolve_spec(m, r.version.0.0 as int) is Some
    &&& match r.authors {
        Some(v) => forall|j: int| 0 <= j < v@.len() ==> author_known(m, #[trigger] v@[j]),
        None => true,
    }
    &&& opt_key_known(m, r.license)
    &&& opt_pattern_known(m, r.builds)
    &&& opt_pattern_known(m, r.rules)
    &&& opt_pattern_known(m, r.toolchains)
    &&& opt_pattern_known(m, r.subprojects)
    &&& match r.dependencies {
        Some(v) => forall|j: int| 0 <= j < v@.len() ==> source_known(m, (#[trigger] v@[j]).1),
        None => true,
    }
    &&& match r.mount_config {
        Some(a) => resolve_spec(m, a.0.0 as int) is Some,
        None => true,
    }
}

/// The pattern of an optional interned pattern, when the interner knows its keys.
fn resolve_opt_pattern(p: &Option<InternedPattern>, interner: &Interner) -> (r: Result<
    Option<Pattern>,
    InternerError,
>)
    ensures
        r matches Ok(q) ==> opt_pattern_named(interner@, q, *p),
        (r is Ok) == opt_pattern_known(interner@, *p),
{
    match p {
        Some(ip) => {
            let mut i: usize = 0;
            while i < ip.patterns.len()
                invariant
                    *p == Some(*ip),
                    i <= ip.patterns@.len(),
                    forall|j: int| 0 <= j < i ==> 0 <= #[trigger] pattern_keys(ip)[j] < interner@.len(),
                    forall|j: int| 0 <= j < i ==> (#[trigger] ip.patterns@[j]).0 < interner@.len(),
                decreases ip.patterns.len() - i,
            {
                if ip.patterns[i].0 >= interner.len() as u64 {
                    assert(!(ip.patterns@[i as int].0 < interner@.len()));
                    assert(!opt_pattern_known(interner@, *p)) by {
                        let q = (*p)->Some_0;
                        assert(q == *ip);
                        assert(q.patterns@[i as int] == ip.patterns@[i as int]);
                        assert(0 <= i < q.patterns@.len());
                    }
                    return Err(InternerError::KeyNotFound(ip.patterns[i].0));
                }
                i = i + 1;
            }
            let q = ip.resolve(interner);
            Ok(Some(q))
        },
        None => Ok(None),
    }
}

impl Project {
    /// Every dependency key, then every config key, must be a loose identifier; the
    /// least (in key order) that is not is reported.
    pub fn validate(&self) -> (r: Result<(), ProjectResolveError>)
        ensures
            match least_bad_key_of(self.dependencies) {
                Some(k) => r matches Err(ProjectResolveError::InvalidDependencyKey(s)) && s@ == k,
                None => match least_bad_key_of(self.config) {
                    Some(k) => r matches Err(ProjectResolveError::InvalidConfigKey(s)) && s@ == k,
                    None => r is Ok,
                },
            },
    {
        match &self.dependencies {
            Some(deps) => match find_bad_key(deps) {
                Some(k) => {
                    return Err(ProjectResolveError::InvalidDependencyKey(k.clone()));
                },
                None => {},
            },
            None => {},
        }
        match &self.config {
            Some(cfg) => match find_bad_key(cfg) {
                Some(k) => {
                    return Err(ProjectResolveError::InvalidConfigKey(k.clone()));
                },
                None => {},
            },
            None => {},
        }
        Ok(())
    }

    /// Checks the keys, then interns the authors, group, version, license, patterns,
    /// dependency sources and mount point, in that order.
    pub fn resolve(self, interner: &mut Interner) -> (r: Result<ResolvedProject, ProjectResolveError>)
        requires
            old(interner)@.len() + project_interns(self) + 4 < usize::MAX,
        ensures
            match least_bad_key_of(self.dependencies) {
                Some(k) => r matches Err(ProjectResolveError::InvalidDependencyKey(s)) && s@ == k,
                None => match least_bad_key_of(self.config) {
                    Some(k) => r matches Err(ProjectResolveError::InvalidConfigKey(s)) && s@ == k,
                    None => (r is Ok) == project_parts_ok(self),
                },
            },
            least_bad_key_of(self.dependencies) is None && least_bad_key_of(self.config) is None
                && !group_ok(self.group@) ==> (r matches Err(
                ProjectResolveError::PackageParseError(_),
            )),
            least_bad_key_of(self.dependencies) is None && least_bad_key_of(self.config) is None
                && group_ok(self.group@) && !semver_accepts(self.version@) ==> (r matches Err(
                ProjectResolveError::PackageParseError(_),
            )),
            r matches Ok(p) ==> extends(old(interner)@, final(interner)@) && project_named(
                final(interner)@,
                self,
                p,
                false,
            ),
    {
        match self.validate() {
            Ok(()) => {},
            Err(e) => {
                return Err(e);
            },
        }
        let ghost this = self;
        let ghost m0 = interner@;
        let Project {
            group,
            artifact,
            version,
            configure_script,
            description,
            authors,
            license,
            builds,
            rules,
            toolchains,
            subprojects,
            dependencies,
            mount_config,
            config,
        } = self;
        // authors
        let iauthors = match &authors {
            Some(v) => Some(intern_authors(v, interner)),
            None => {
                proof {
                    lemma_extends_refl(m0);
                }
                None
            },
        };
        let ghost m1 = interner@;
        // group
        let igroup = match InternedGroup::try_parse(group.as_str(), interner) {
            Ok(g) => g,
            Err(e) => {
                return Err(ProjectResolveError::PackageParseError(e));
            },
        };
        let ghost m2 = interner@;
        proof {
            lemma_intern_step(m1, group@);
        }
        // version
        let iversion = match InternedVersion::try_parse(version.as_str(), interner) {
            Ok(v) => v,
            Err(e) => {
                return Err(ProjectResolveError::PackageParseError(e));
            },
        };
        let ghost m3 = interner@;
        proof {
            lemma_intern_step(m2, version@);
        }
        // license
        let ilicense = match &license {
            Some(t) => match interner.get_or_intern(t.as_str()) {
                Ok(k) => {
                    proof {
                        lemma_intern_step(m3, t@);
                    }
                    Some(k)
                },
                Err(_) => unreached(),
            },
            None => {
                proof {
                    lemma_extends_refl(m3);
                }
                None
            },
        };
        let ghost m4 = interner@;
        let ibuilds = intern_opt_pattern(builds, interner);
        let ghost m5 = interner@;
        let irules = intern_opt_pattern(rules, interner);
        let ghost m6 = interner@;
        let itoolchains = intern_opt_pattern(toolchains, interner);
        let ghost m7 = interner@;
        let isubprojects = intern_opt_pattern(subprojects, interner);
        let ghost m8 = interner@;
        // dependencies
        let ideps = match dependencies {
            Some(d) => match intern_deps(d, interner) {
                Ok(v) => Some(v),
                Err(e) => {
                    return Err(ProjectResolveError::PackageSourceResolveError(e));
                },
            },
            None => {
                proof {
                    lemma_extends_refl(m8);
                }
                None
            },
        };
        let ghost m9 = interner@;
        // mount point
        let imount = match &mount_config {
            Some(s) => match InternedAtom::try_parse(s.as_str(), interner) {
                Ok(a) => {
                    proof {
                        lemma_intern_step(m9, s@);
                    }
                    Some(a)
                },
                Err(e) => {
                    return Err(ProjectResolveError::IdParseError(s.clone(), "mount_config", e));
                },
            },
            None => {
                proof {
                    lemma_extends_refl(m9);
                }
                None
            },
        };
        let ghost m10 = interner@;
        let r = ResolvedProject {
            group: igroup,
            artifact,
            version: iversion,
            configure_script,
            description,
            authors: iauthors,
            license: ilicense,
            builds: ibuilds,
            rules: irules,
            toolchains: itoolchains,
            subprojects: isubprojects,
            dependencies: ideps,
            mount_config: imount,
            config: match config {
                Some(v) => v,
                None => Vec::new(),
            },
        };
        let ghost rr = r;
        proof {
            lemma_extends_trans(m8, m9, m10);
            lemma_extends_trans(m7, m8, m10);
            lemma_extends_trans(m6, m7, m10);
            lemma_extends_trans(m5, m6, m10);
            lemma_extends_trans(m4, m5, m10);
            lemma_extends_trans(m3, m4, m10);
            lemma_extends_trans(m2, m3, m10);
            lemma_extends_trans(m1, m2, m10);
            lemma_extends_trans(m0, m1, m10);
            if let (Some(a), Some(i)) = (this.authors, rr.authors) {
                lemma_authors_named_survives(m1, m10, a@, i@);
            }
            lemma_resolve_survives(m2, m10, igroup.0.0 as int);
            lemma_resolve_survives(m3, m10, iversion.0.0 as int);
            if let Some(k) = ilicense {
                lemma_resolve_survives(m4, m10, k.0 as int);
            }
            lemma_pattern_named_survives(m5, m10, this.builds, rr.builds);
            lemma_pattern_named_survives(m6, m10, this.rules, rr.rules);
            lemma_pattern_named_survives(m7, m10, this.toolchains, rr.toolchains);
            lemma_pattern_named_survives(m8, m10, this.subprojects, rr.subprojects);
            if let (Some(d), Some(i)) = (this.dependencies, rr.dependencies) {
                lemma_deps_named_survives(m9, m10, d@, i@, false);
            }
        }
        Ok(r)
    }
}

impl ResolvedProject {
    /// The project again, its texts read from the interner.
    pub fn to_raw(&self, interner: &Interner) -> (r: Result<Project, ProjectResolveError>)
        ensures
            (r is Ok) == raw_ok(interner@, *self),
            r matches Ok(p) ==> project_named(interner@, p, *self, true) && p.config is Some,
    {
        let group = match interner.resolve(&self.group.0) {
            Ok(t) => String::from_str(t),
            Err(e) => {
                return Err(ProjectResolveError::InternerError(e));
            },
        };
        let version = match interner.resolve(&self.version.0) {
            Ok(t) => String::from_str(t),
            Err(e) => {
                return Err(ProjectResolveError::InternerError(e));
            },
        };
        let authors = match &self.authors {
            Some(v) => {
                let mut out: Vec<Author> = Vec::new();
                let mut i: usize = 0;
                while i < v.len()
                    invariant
                        self.authors == Some(*v),
                        i <= v@.len(),
                        out@.len() == i,
                        forall|j: int|
                            0 <= j < i ==> author_named(interner@, #[trigger] out@[j], v@[j]),
                        forall|j: int| 0 <= j < i ==> author_known(interner@, #[trigger] v@[j]),
                    decreases v.len() - i,
                {
                    match v[i].resolve(interner) {
                        Ok(a) => {
                            out.push(a);
                        },
                        Err(e) => {
                            assert(!author_known(interner@, v@[i as int]));
                            assert(!raw_ok(interner@, *self)) by {
                                assert(self.authors->Some_0@[i as int] == v@[i as int]);
                            }
                            return Err(ProjectResolveError::AuthorError(e));
                        },
                    }
                    i = i + 1;
                }
                Some(out)
            },
            None => None,
        };
        let license = match &self.license {
            Some(k) => match interner.resolve(k) {
                Ok(t) => Some(String::from_str(t)),
                Err(e) => {
                    return Err(ProjectResolveError::InternerError(e));
                },
            },
            None => None,
        };
        let builds = match resolve_opt_pattern(&self.builds, interner) {
            Ok(p) => p,
            Err(e) => {
                return Err(ProjectResolveError::InternerError(e));
            },
        };
        let rules = match resolve_opt_pattern(&self.rules, interner) {
            Ok(p) => p,
            Err(e) => {
                return Err(ProjectResolveError::InternerError(e));
            },
        };
        let toolchains = match resolve_opt_pattern(&self.toolchains, interner) {
            Ok(p) => p,
            Err(e) => {
                return Err(ProjectResolveError::InternerError(e));
            },
        };
        let subprojects = match resolve_opt_pattern(&self.subprojects, interner) {
            Ok(p) => p,
            Err(e) => {
                return Err(ProjectResolveError::InternerError(e));
            },
        };
        let dependencies = match &self.dependencies {
            Some(v) => {
                let mut out: Vec<(String, PackageSource)> = Vec::new();
                let mut i: usize = 0;
                while i < v.len()
                    invariant
                        self.dependencies == Some(*v),
                        i <= v@.len(),
                        out@.len() == i,
                        forall|j: int|
                            0 <= j < i ==> (#[trigger] v@[j]).0@ == out@[j].0@ && source_named(
                                interner@,
                                out@[j].1,
                                v@[j].1,
                                true,
                            ),
                        forall|j: int| 0 <= j < i ==> source_known(interner@, (#[trigger] v@[j]).1),
                    decreases v.len() - i,
                {
                    match v[i].1.unintern(interner) {
                        Ok(s) => {
                            out.push((v[i].0.clone(), s));
                        },
                        Err(e) => {
                            assert(!source_known(interner@, v@[i as int].1));
                            assert(!raw_ok(interner@, *self)) by {
                                assert(self.dependencies->Some_0@[i as int] == v@[i as int]);
                            }
                            return Err(ProjectResolveError::InternerError(e));
                        },
                    }
                    i = i + 1;
                }
                Some(out)
            },
            None => None,
        };
        let mount_config = match &self.mount_config {
            Some(a) => match interner.resolve(&a.0) {
                Ok(t) => Some(String::from_str(t)),
                Err(e) => {
                    return Err(ProjectResolveError::InternerError(e));
                },
            },
            None => None,
        };
        Ok(
            Project {
                group,
                artifact: self.artifact.clone(),
                version,
                configure_script: copy_opt_text(&self.configure_script),
                description: copy_opt_text(&self.description),
                authors,
                license,
                builds,
                rules,
                toolchains,
                subprojects,
                dependencies,
                mount_config,
                config: Some(copy_config(&self.config)),
            },
        )
    }
}

/// Every author of the project has a name and an email free of angle brackets, as
/// every `Author` value does.
pub open spec fn authors_ok(a: Option<Vec<Author>>) -> bool {
    match a {
        Some(v) => forall|j: int| 0 <= j < v@.len() ==> author_ok(#[trigger] v@[j]),
        None => true,
    }
}

pub open spec fn opt_authors_eq(a: Option<Vec<Author>>, b: Option<Vec<Author>>) -> bool {
    match (a, b) {
        (None, None) => true,
        (Some(x), Some(y)) => x@.len() == y@.len() && forall|j: int|
            0 <= j < x@.len() ==> (#[trigger] x@[j]).name_spec() == y@[j].name_spec()
                && x@[j].email_spec() == y@[j].email_spec(),
        _ => false,
    }
}

pub open spec fn opt_pattern_eq(a: Option<Pattern>, b: Option<Pattern>) -> bool {
    match (a, b) {
        (None, None) => true,
        (Some(x), Some(y)) => pattern_texts(&x) == pattern_texts(&y) && x.following_ignore_files
            == y.following_ignore_files && x.ignore_hidden_files == y.ignore_hidden_files,
        _ => false,
    }
}

/// A source read back after interning: the same texts, a path in its normal form.
pub open spec fn source_round_trip(a: PackageSource, b: PackageSource) -> bool {
    match (a, b) {
        (PackageSource::Registry { package: x }, PackageSource::Registry { package: y }) => x@
            == y@,
        (PackageSource::Git { repo: x, checkout: c }, PackageSource::Git { repo: y, checkout: d }) =>
            x@ == y@ && opt_text_eq(c, d),
        (PackageSource::Http { url: x }, PackageSource::Http { url: y }) => x@ == y@,
        (PackageSource::Path { path: x }, PackageSource::Path { path: y }) => from_path_spec(x@)
            == Ok::<Seq<char>, crate::path::PathError>(y@),
        _ => false,
    }
}

pub open spec fn opt_deps_round_trip(
    a: Option<Vec<(String, PackageSource)>>,
    b: Option<Vec<(String, PackageSource)>>,
) -> bool {
    match (a, b) {
        (None, None) => true,
        (Some(x), Some(y)) => x@.len() == y@.len() && forall|j: int|
            0 <= j < x@.len() ==> (#[trigger] x@[j]).0@ == y@[j].0@ && source_round_trip(
                x@[j].1,
                y@[j].1,
            ),
        _ => false,
    }
}

/// `q` is what reading back the resolved form of `p` gives: the same texts, with
/// dependency paths in their normal form, and the configuration (an absent one read
/// back as empty).
pub open spec fn project_round_trip(p: Project, q: Project) -> bool {
    &&& q.group@ == p.group@
    &&& q.artifact@ == p.artifact@
    &&& q.version@ == p.version@
    &&& opt_text_eq(q.configure_script, p.configure_script)
    &&& opt_text_eq(q.description, p.description)
    &&& opt_authors_eq(p.authors, q.authors)
    &&& opt_text_eq(q.license, p.license)
    &&& opt_pattern_eq(p.builds, q.builds)
    &&& opt_pattern_eq(p.rules, q.rules)
    &&& opt_pattern_eq(p.toolchains, q.toolchains)
    &&& opt_pattern_eq(p.subprojects, q.subprojects)
    &&& opt_deps_round_trip(p.dependencies, q.dependencies)
    &&& opt_text_eq(q.mount_config, p.mount_config)
    &&& config_or_empty(q.config) == config_or_empty(p.config)
}

proof fn lemma_opt_pattern_known(m: Seq<Seq<char>>, p: Option<Pattern>, i: Option<InternedPattern>)
    requires
        opt_pattern_named(m, p, i),
    ensures
        opt_pattern_known(m, i),
{
    if let Some(ip) = i {
        assert forall|j: int| 0 <= j < ip.patterns@.len() implies (#[trigger] ip.patterns@[j]).0
            < m.len() by {
            assert(pattern_keys(&ip)[j] == ip.patterns@[j].0 as int);
        }
    }
}

proof fn lemma_opt_pattern_eq(m: Seq<Seq<char>>, p: Option<Pattern>, q: Option<Pattern>, i: Option<InternedPattern>)
    requires
        opt_pattern_named(m, p, i),
        opt_pattern_named(m, q, i),
    ensures
        opt_pattern_eq(p, q),
{
}

/// What `resolve` gives, `to_raw` reads back: it succeeds on the interner that
/// `resolve` left, and gives the project's texts again, with dependency paths in their
/// normal form and an absent configuration read back as empty.
pub proof fn law_project_round_trip(m: Seq<Seq<char>>, p: Project, r: ResolvedProject, q: Project)
    requires
        project_named(m, p, r, false),
        authors_ok(p.authors),
    ensures
        raw_ok(m, r),
        project_named(m, q, r, true) ==> project_round_trip(p, q),
{
    if let (Some(a), Some(i)) = (p.authors, r.authors) {
        assert forall|j: int| 0 <= j < i@.len() implies author_known(m, #[trigger] i@[j]) by {
            assert(author_named(m, a@[j], i@[j]));
            assert(author_ok(a@[j]));
        }
    }
    lemma_opt_pattern_known(m, p.builds, r.builds);
    lemma_opt_pattern_known(m, p.rules, r.rules);
    lemma_opt_pattern_known(m, p.toolchains, r.toolchains);
    lemma_opt_pattern_known(m, p.subprojects, r.subprojects);
    if let (Some(d), Some(i)) = (p.dependencies, r.dependencies) {
        assert forall|j: int| 0 <= j < i@.len() implies source_known(m, (#[trigger] i@[j]).1) by {
            assert(source_named(m, d@[j].1, i@[j].1, false));
        }
    }
    if project_named(m, q, r, true) {
        lemma_opt_pattern_eq(m, p.builds, q.builds, r.builds);
        lemma_opt_pattern_eq(m, p.rules, q.rules, r.rules);
        lemma_opt_pattern_eq(m, p.toolchains, q.toolchains, r.toolchains);
        lemma_opt_pattern_eq(m, p.subprojects, q.subprojects, r.subprojects);
        if let (Some(a), Some(b), Some(i)) = (p.authors, q.authors, r.authors) {
            assert forall|j: int| 0 <= j < a@.len() implies (#[trigger] a@[j]).name_spec()
                == b@[j].name_spec() && a@[j].email_spec() == b@[j].email_spec() by {
                assert(author_named(m, a@[j], i@[j]));
                assert(author_named(m, b@[j], i@[j]));
            }
        }
        if let (Some(d), Some(e), Some(i)) = (p.dependencies, q.dependencies, r.dependencies) {
            assert forall|j: int| 0 <= j < d@.len() implies (#[trigger] d@[j]).0@ == e@[j].0@
                && source_round_trip(d@[j].1, e@[j].1) by {
                assert(i@[j].0@ == d@[j].0@);
                assert(i@[j].0@ == e@[j].0@);
                assert(source_named(m, d@[j].1, i@[j].1, false));
                assert(source_named(m, e@[j].1, i@[j].1, true));
            }
        }
    }
}

} // verus!
