//! Keys of the build graph, and the form they are persisted in.
use vstd::prelude::*;

use crate::intern::{
    intern_spec, law_intern_known_text, InternedAbsolutePath, Interner,
};
use crate::pattern::{
    intern_all, pattern_keys, pattern_texts, resolve_all, InternedPattern, Pattern,
};

verus! {

/// A key of the build graph, with its texts in full.
#[derive(Debug, Clone, PartialEq, Eq, Hash)]
pub enum RawZakoKey {
    Glob { base_path: String, pattern: Pattern },
    ResolveProject,
}

/// A key of the build graph.
#[derive(Debug, Clone, PartialEq, Eq, Hash)]
pub enum ZakoKey {
    /// Files under a base path that match a pattern.
    Glob { base_path: InternedAbsolutePath, pattern: InternedPattern },
    /// Resolve a project file.
    ResolveProject { path: String },
}

/// Every key of the glob is known to the interner.
pub open spec fn glob_keys_known(
    m: Seq<Seq<char>>,
    base_path: InternedAbsolutePath,
    pattern: InternedPattern,
) -> bool {
    &&& base_path.key() < m.len()
    &&& forall|i: int| 0 <= i < pattern.patterns@.len() ==> 0 <= #[trigger] pattern_keys(
        &pattern,
    )[i] < m.len()
}

impl ZakoKey {
    /// The persisted form: a glob with its texts; a project resolution is not
    /// persisted.
    pub fn to_persisted(&self, interner: &Interner) -> (r: Option<RawZakoKey>)
        requires
            self matches ZakoKey::Glob { base_path, pattern } ==> glob_keys_known(
                interner@,
                *base_path,
                *pattern,
            ),
        ensures
            match self {
                ZakoKey::Glob { base_path, pattern } => r matches Some(
                    RawZakoKey::Glob { base_path: b, pattern: p },
                ) && b@ == interner@[base_path.key() as int] && pattern_texts(&p) == resolve_all(
                    interner@,
                    pattern_keys(pattern),
                ) && p.following_ignore_files == pattern.following_ignore_files
                    && p.ignore_hidden_files == pattern.ignore_hidden_files,
                ZakoKey::ResolveProject { .. } => r is None,
            },
    {
        match self {
            ZakoKey::Glob { base_path, pattern } => {
                let text = match base_path.resolve(interner) {
                    Ok(t) => t,
                    Err(_) => unreached(),
                };
                Some(
                    RawZakoKey::Glob {
                        base_path: String::from_str(text),
                        pattern: pattern.resolve(interner),
                    },
                )
            },
            ZakoKey::ResolveProject { .. } => None,
        }
    }

    /// The key again, its texts interned; a project resolution is not persisted.
    pub fn from_persisted(raw: RawZakoKey, interner: &mut Interner) -> (r: Option<ZakoKey>)
        requires
            raw matches RawZakoKey::Glob { pattern, .. } ==> old(interner)@.len() + 1
                + pattern.patterns@.len() < usize::MAX,
        ensures
            match raw {
                RawZakoKey::Glob { base_path, pattern } => r matches Some(
                    ZakoKey::Glob { base_path: b, pattern: p },
                ) && ({
                    let (m1, kb) = intern_spec(old(interner)@, base_path@);
                    let (m2, ks) = intern_all(m1, pattern_texts(&pattern));
                    &&& b.key() == kb
                    &&& pattern_keys(&p) == ks
                    &&& final(interner)@ == m2
                    &&& p.following_ignore_files == pattern.following_ignore_files
                    &&& p.ignore_hidden_files == pattern.ignore_hidden_files
                }),
                RawZakoKey::ResolveProject => r is None && final(interner)@ == old(interner)@,
            },
    {
        match raw {
            RawZakoKey::Glob { base_path, pattern } => {
                let key = match interner.get_or_intern(base_path.as_str()) {
                    Ok(k) => k,
                    Err(_) => unreached(),
                };
                let pattern = pattern.intern(interner);
                Some(
                    ZakoKey::Glob {
                        base_path: InternedAbsolutePath::from_interned_unchecked(key),
                        pattern,
                    },
                )
            },
            RawZakoKey::ResolveProject => None,
        }
    }
}

/// Interning the texts of known keys gives the same keys and leaves the table as it is.
proof fn lemma_intern_resolved(m: Seq<Seq<char>>, keys: Seq<int>)
    requires
        m.no_duplicates(),
        forall|i: int| 0 <= i < keys.len() ==> 0 <= #[trigger] keys[i] < m.len(),
    ensures
        intern_all(m, resolve_all(m, keys)) == (m, keys),
    decreases keys.len(),
{
    if keys.len() > 0 {
        let d = keys.drop_last();
        assert forall|i: int| 0 <= i < d.len() implies 0 <= #[trigger] d[i] < m.len() by {
            assert(d[i] == keys[i]);
        }
        lemma_intern_resolved(m, d);
        assert(resolve_all(m, keys).drop_last() =~= resolve_all(m, d));
        law_intern_known_text(m, keys.last());
        assert(d.push(keys.last()) =~= keys);
    } else {
        assert(keys =~= Seq::<int>::empty());
    }
}

/// A glob key read back from its persisted form is the same key, and the interner
/// that knew its texts is left as it was.
pub proof fn law_glob_key_round_trip(m: Seq<Seq<char>>, base: int, keys: Seq<int>)
    requires
        m.no_duplicates(),
        0 <= base < m.len(),
        forall|i: int| 0 <= i < keys.len() ==> 0 <= #[trigger] keys[i] < m.len(),
    ensures
        intern_spec(m, m[base]) == (m, base as nat),
        intern_all(intern_spec(m, m[base]).0, resolve_all(m, keys)) == (m, keys),
{
    law_intern_known_text(m, base);
    lemma_intern_resolved(m, keys);
}

} // verus!
