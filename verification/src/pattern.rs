//! File patterns (globset syntax) and their interned form.
use vstd::prelude::*;

use crate::hash_input::{flag_byte, le_bytes, push_le_u64};
use crate::intern::{intern_spec, InternedString, Interner};
use crate::package_id::{extends, lemma_intern_extends};

verus! {

/// The patterns that select files, and how ignore files and hidden files count.
#[derive(Debug, Clone, PartialEq, Eq, PartialOrd, Ord, Hash)]
pub struct Pattern {
    pub patterns: Vec<String>,
    /// Whether standard ignore files (`.gitignore`, `.ignore`, ...) are followed.
    pub following_ignore_files: bool,
    /// Whether hidden files are skipped.
    pub ignore_hidden_files: bool,
}

/// A pattern whose texts are interned.
#[derive(Debug, Clone, PartialEq, Eq, PartialOrd, Ord, Hash)]
pub struct InternedPattern {
    pub patterns: Vec<InternedString>,
    pub following_ignore_files: bool,
    pub ignore_hidden_files: bool,
}

/// The bytes an interned pattern feeds a hasher: each key, then the two flags.
pub open spec fn pattern_hash_input(keys: Seq<InternedString>, follow: bool, hidden: bool) -> Seq<
    u8,
>
    decreases keys.len(),
{
    if keys.len() == 0 {
        seq![flag_byte(follow), flag_byte(hidden)]
    } else {
        le_bytes(keys[0].0) + pattern_hash_input(keys.drop_first(), follow, hidden)
    }
}

/// The texts of a pattern.
pub open spec fn pattern_texts(p: &Pattern) -> Seq<Seq<char>> {
    p.patterns@.map_values(|s: String| s@)
}

/// The keys of an interned pattern.
pub open spec fn pattern_keys(p: &InternedPattern) -> Seq<int> {
    p.patterns@.map_values(|k: InternedString| k.0 as int)
}

/// The table and keys after interning `texts` one after the other.
pub open spec fn intern_all(m: Seq<Seq<char>>, texts: Seq<Seq<char>>) -> (Seq<Seq<char>>, Seq<int>)
    decreases texts.len(),
{
    if texts.len() == 0 {
        (m, Seq::empty())
    } else {
        let (m1, ks) = intern_all(m, texts.drop_last());
        let (m2, k) = intern_spec(m1, texts.last());
        (m2, ks.push(k as int))
    }
}

/// The texts of `keys` in `m`.
pub open spec fn resolve_all(m: Seq<Seq<char>>, keys: Seq<int>) -> Seq<Seq<char>> {
    Seq::new(keys.len(), |i: int| m[keys[i]])
}

/// Interning a list of texts: the table grows by at most their number, and each key names its text.
pub proof fn lemma_intern_all_len(m: Seq<Seq<char>>, texts: Seq<Seq<char>>)
    ensures
        intern_all(m, texts).1.len() == texts.len(),
        intern_all(m, texts).0.len() <= m.len() + texts.len(),
        extends(m, intern_all(m, texts).0),
        forall|i: int|
            0 <= i < texts.len() ==> 0 <= #[trigger] intern_all(m, texts).1[i] < intern_all(
                m,
                texts,
            ).0.len() && intern_all(m, texts).0[intern_all(m, texts).1[i]] == texts[i],
    decreases texts.len(),
{
    if texts.len() == 0 {
        assert(m.take(m.len() as int) =~= m);
    } else {
        let d = texts.drop_last();
        lemma_intern_all_len(m, d);
        let (m1, ks) = intern_all(m, d);
        let t = texts.last();
        let (m2, k) = intern_spec(m1, t);
        lemma_intern_extends(m1, t);
        assert(extends(m, m2)) by {
            assert(m2.take(m.len() as int) =~= m2.take(m1.len() as int).take(m.len() as int));
        }
        if m1.contains(t) {
            let w = m1.index_of(t);
            assert(m1[w] == t);
        }
        assert(m2[k as int] == t);
        assert forall|i: int| 0 <= i < texts.len() implies 0 <= #[trigger] ks.push(k as int)[i]
            < m2.len() && m2[ks.push(k as int)[i]] == texts[i] by {
            if i < d.len() {
                assert(ks.push(k as int)[i] == ks[i]);
                assert(d[i] == texts[i]);
                assert(m2[ks[i]] == m2.take(m1.len() as int)[ks[i]]);
            }
        }
    }
}

impl Pattern {
    /// Interns every pattern text.
    pub fn intern(self, interner: &mut Interner) -> (r: InternedPattern)
        requires
            old(interner)@.len() + self.patterns@.len() < usize::MAX,
        ensures
            (final(interner)@, pattern_keys(&r)) == intern_all(old(interner)@, pattern_texts(&self)),
            r.following_ignore_files == self.following_ignore_files,
            r.ignore_hidden_files == self.ignore_hidden_files,
    {
        let ghost texts = pattern_texts(&self);
        let ghost m0 = interner@;
        let mut keys: Vec<InternedString> = Vec::new();
        let mut i: usize = 0;
        proof {
            assert(texts.take(0) =~= Seq::<Seq<char>>::empty());
            assert(keys@.map_values(|k: InternedString| k.0 as int) =~= Seq::<int>::empty());
        }
        while i < self.patterns.len()
            invariant
                texts == pattern_texts(&self),
                m0.len() + texts.len() < usize::MAX,
                i <= texts.len(),
                (interner@, keys@.map_values(|k: InternedString| k.0 as int)) == intern_all(
                    m0,
                    texts.take(i as int),
                ),
            decreases self.patterns.len() - i,
        {
            proof {
                lemma_intern_all_len(m0, texts.take(i as int));
                assert(texts.take(i + 1).drop_last() =~= texts.take(i as int));
                assert(texts.take(i + 1).last() == texts[i as int]);
            }
            let ghost before = keys@;
            match interner.get_or_intern(self.patterns[i].as_str()) {
                Ok(k) => {
                    keys.push(k);
                    proof {
                        assert(keys@.map_values(|k: InternedString| k.0 as int) =~= before.map_values(
                            |k: InternedString| k.0 as int,
                        ).push(k.0 as int));
                    }
                },
                Err(_) => {
                    proof {
                        assert(false);
                    }
                },
            }
            i = i + 1;
        }
        proof {
            assert(texts.take(texts.len() as int) =~= texts);
        }
        InternedPattern {
            patterns: keys,
            following_ignore_files: self.following_ignore_files,
            ignore_hidden_files: self.ignore_hidden_files,
        }
    }
}

impl InternedPattern {
    /// Appends what the pattern feeds a hasher: each key as eight little-endian
    /// bytes, then one byte for each flag.
    pub fn hash_into_blake3(&self, out: &mut Vec<u8>)
        ensures
            final(out)@ == old(out)@ + pattern_hash_input(
                self.patterns@,
                self.following_ignore_files,
                self.ignore_hidden_files,
            ),
    {
        let ghost start = out@;
        let mut i: usize = 0;
        assert(self.patterns@.skip(0) =~= self.patterns@);
        while i < self.patterns.len()
            invariant
                i <= self.patterns@.len(),
                out@ + pattern_hash_input(
                    self.patterns@.skip(i as int),
                    self.following_ignore_files,
                    self.ignore_hidden_files,
                ) == start + pattern_hash_input(
                    self.patterns@,
                    self.following_ignore_files,
                    self.ignore_hidden_files,
                ),
            decreases self.patterns.len() - i,
        {
            let ghost before = out@;
            let ghost rest = self.patterns@.skip(i as int);
            push_le_u64(out, self.patterns[i].0);
            proof {
                assert(rest[0] == self.patterns@[i as int]);
                assert(rest.drop_first() =~= self.patterns@.skip(i + 1));
                assert(before + pattern_hash_input(
                    rest,
                    self.following_ignore_files,
                    self.ignore_hidden_files,
                ) =~= out@ + pattern_hash_input(
                    self.patterns@.skip(i + 1),
                    self.following_ignore_files,
                    self.ignore_hidden_files,
                ));
            }
            i = i + 1;
        }
        let ghost before = out@;
        out.push(if self.following_ignore_files {
            1u8
        } else {
            0u8
        });
        out.push(if self.ignore_hidden_files {
            1u8
        } else {
            0u8
        });
        proof {
            assert(self.patterns@.skip(i as int) =~= Seq::<InternedString>::empty());
            assert(out@ =~= before + pattern_hash_input(
                self.patterns@.skip(i as int),
                self.following_ignore_files,
                self.ignore_hidden_files,
            ));
        }
    }

    pub fn is_empty(&self) -> (r: bool)
        ensures
            r == (self.patterns@.len() == 0),
    {
        self.patterns.len() == 0
    }

    /// The pattern texts of the keys.
    pub fn resolve(&self, interner: &Interner) -> (r: Pattern)
        requires
            forall|i: int|
                0 <= i < self.patterns@.len() ==> 0 <= #[trigger] pattern_keys(self)[i]
                    < interner@.len(),
        ensures
            pattern_texts(&r) == resolve_all(interner@, pattern_keys(self)),
            r.following_ignore_files == self.following_ignore_files,
            r.ignore_hidden_files == self.ignore_hidden_files,
    {
        let ghost keys = pattern_keys(self);
        let mut texts: Vec<String> = Vec::new();
        let mut i: usize = 0;
        while i < self.patterns.len()
            invariant
                keys == pattern_keys(self),
                forall|j: int| 0 <= j < keys.len() ==> 0 <= #[trigger] keys[j] < interner@.len(),
                i <= self.patterns@.len(),
                texts@.map_values(|s: String| s@) == resolve_all(interner@, keys.take(i as int)),
            decreases self.patterns.len() - i,
        {
            let ghost before = texts@;
            assert(keys[i as int] == self.patterns@[i as int].0 as int);
            match interner.resolve(&self.patterns[i]) {
                Ok(t) => {
                    let ghost prev = before.map_values(|s: String| s@);
                    texts.push(String::from_str(t));
                    proof {
                        let a = texts@.map_values(|s: String| s@);
                        let want = resolve_all(interner@, keys.take(i + 1));
                        assert(t@ == interner@[keys[i as int]]);
                        assert(prev == resolve_all(interner@, keys.take(i as int)));
                        assert(keys.len() == self.patterns@.len());
                        assert(prev.len() == i);
                        assert(a.len() == want.len());
                        assert forall|j: int| 0 <= j < a.len() implies a[j] == want[j] by {
                            if j < i {
                                assert(a[j] == texts@[j]@);
                                assert(texts@[j] == before[j]);
                                assert(prev[j] == before[j]@);
                                assert(keys.take(i + 1)[j] == keys.take(i as int)[j]);
                            } else {
                                assert(a[j] == t@);
                            }
                        }
                        assert(a =~= want);
                    }
                },
                Err(_) => {
                    proof {
                        assert(false);
                    }
                },
            }
            i = i + 1;
        }
        proof {
            assert(keys.take(keys.len() as int) =~= keys);
        }
        Pattern {
            patterns: texts,
            following_ignore_files: self.following_ignore_files,
            ignore_hidden_files: self.ignore_hidden_files,
        }
    }
}

/// Resolving an interned pattern gives back the texts that were interned.
pub proof fn law_pattern_round_trip(m: Seq<Seq<char>>, texts: Seq<Seq<char>>)
    ensures
        resolve_all(intern_all(m, texts).0, intern_all(m, texts).1) == texts,
        forall|i: int|
            0 <= i < texts.len() ==> 0 <= #[trigger] intern_all(m, texts).1[i] < intern_all(
                m,
                texts,
            ).0.len(),
{
    lemma_intern_all_len(m, texts);
    assert(resolve_all(intern_all(m, texts).0, intern_all(m, texts).1) =~= texts);
}

} // verus!
