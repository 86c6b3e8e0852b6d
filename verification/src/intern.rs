//! A string interner: each distinct text gets a stable key.
use vstd::prelude::*;

verus! {

/// The key of an interned text.
#[derive(Debug, Clone, Copy, PartialEq, Eq, PartialOrd, Ord, Hash)]
pub struct InternedString(pub u64);

impl InternedString {
    pub fn as_u64(&self) -> (r: u64)
        ensures
            r == self.0,
    {
        self.0
    }
}

/// Why the interner refused a request.
#[derive(Debug, Clone, Copy, PartialEq, Eq)]
pub enum InternerError {
    /// The key was not handed out by this interner.
    KeyNotFound(u64),
    /// No more texts fit.
    CapacityExceeded,
}

/// The table after interning `s` into `m`, and the key of `s`.
pub open spec fn intern_spec(m: Seq<Seq<char>>, s: Seq<char>) -> (Seq<Seq<char>>, nat) {
    if m.contains(s) {
        (m, m.index_of(s) as nat)
    } else {
        (m.push(s), m.len())
    }
}

/// The text of key `k` in `m`.
pub open spec fn resolve_spec(m: Seq<Seq<char>>, k: int) -> Option<Seq<char>> {
    if 0 <= k < m.len() {
        Some(m[k])
    } else {
        None
    }
}

/// Interns texts; the key of a text is its position in the table.
pub struct Interner {
    strings: Vec<String>,
}

impl View for Interner {
    type V = Seq<Seq<char>>;

    closed spec fn view(&self) -> Seq<Seq<char>> {
        self.strings@.map_values(|x: String| x@)
    }
}

impl Interner {
    #[verifier::type_invariant]
    spec fn inv(self) -> bool {
        self@.no_duplicates()
    }

    pub fn new() -> (r: Interner)
        ensures
            r@ == Seq::<Seq<char>>::empty(),
    {
        let r = Interner { strings: Vec::new() };
        assert(r@ =~= Seq::<Seq<char>>::empty());
        r
    }

    /// The number of distinct texts interned so far.
    pub fn len(&self) -> (r: usize)
        ensures
            r == self@.len(),
    {
        self.strings.len()
    }

    /// The key of `s`, interning it first when it is new.
    pub fn get_or_intern(&mut self, s: &str) -> (r: Result<InternedString, InternerError>)
        ensures
            old(self)@.contains(s@) || old(self)@.len() < usize::MAX ==> (r matches Ok(k) && (
            final(self)@, k.0 as nat) == intern_spec(old(self)@, s@)),
            !(old(self)@.contains(s@) || old(self)@.len() < usize::MAX) ==> r == Err::<
                InternedString,
                InternerError,
            >(InternerError::CapacityExceeded) && final(self)@ == old(self)@,
    {
        proof {
            use_type_invariant(&*self);
        }
        let ghost m = self@;
        let target = String::from_str(s);
        let n = self.strings.len();
        let mut i: usize = 0;
        while i < n
            invariant
                n == self.strings@.len(),
                m == self@,
                m.no_duplicates(),
                target@ == s@,
                i <= n,
                forall|j: int| 0 <= j < i ==> m[j] != s@,
            decreases n - i,
        {
            if self.strings[i] == target {
                proof {
                    assert(m[i as int] == s@);
                    assert(m.contains(s@));
                    let w = m.index_of(s@);
                    assert(m[w] == s@);
                }
                return Ok(InternedString(i as u64));
            }
            i = i + 1;
        }
        proof {
            assert(!m.contains(s@)) by {
                if m.contains(s@) {
                    let w = choose|w: int| 0 <= w < m.len() && m[w] == s@;
                    assert(m[w] != s@);
                }
            }
        }
        if n == usize::MAX {
            return Err(InternerError::CapacityExceeded);
        }
        let mut strings: Vec<String> = Vec::new();
        assert(strings@.map_values(|x: String| x@) =~= Seq::<Seq<char>>::empty());
        std::mem::swap(&mut strings, &mut self.strings);
        strings.push(target);
        proof {
            let v = strings@.map_values(|x: String| x@);
            assert(v =~= m.push(s@));
            assert(v.no_duplicates()) by {
                assert forall|a: int, b: int|
                    0 <= a < v.len() && 0 <= b < v.len() && a != b implies v[a] != v[b] by {
                    if a < m.len() && b < m.len() {
                    } else if a == m.len() {
                        assert(m[b] != s@);
                    } else {
                        assert(m[a] != s@);
                    }
                }
            }
        }
        self.strings = strings;
        Ok(InternedString(n as u64))
    }

    /// The text of `key`.
    pub fn resolve(&self, key: &InternedString) -> (r: Result<&str, InternerError>)
        ensures
            match resolve_spec(self@, key.0 as int) {
                Some(t) => r matches Ok(x) && x@ == t,
                None => r == Err::<&str, InternerError>(InternerError::KeyNotFound(key.0)),
            },
    {
        if key.0 < self.strings.len() as u64 {
            let i = key.0 as usize;
            Ok(self.strings[i].as_str())
        } else {
            Err(InternerError::KeyNotFound(key.0))
        }
    }
}

/// What one interns, one resolves back.
pub proof fn law_resolve_after_intern(m: Seq<Seq<char>>, s: Seq<char>)
    requires
        m.no_duplicates(),
    ensures
        resolve_spec(intern_spec(m, s).0, intern_spec(m, s).1 as int) == Some(s),
{
    if m.contains(s) {
        let w = m.index_of(s);
        assert(m[w] == s);
    }
}

/// Interning a text twice gives the same key and leaves the table unchanged.
pub proof fn law_intern_idempotent(m: Seq<Seq<char>>, s: Seq<char>)
    requires
        m.no_duplicates(),
    ensures
        intern_spec(intern_spec(m, s).0, s) == intern_spec(m, s),
{
    let (m2, k) = intern_spec(m, s);
    if m.contains(s) {
    } else {
        assert(m2[m.len() as int] == s);
        assert(m2.contains(s));
        let w = m2.index_of(s);
        assert(m2[w] == s);
        if w < m.len() {
            assert(m[w] == s);
            assert(m.contains(s));
        }
    }
}

/// Interning never changes the text of a key handed out before.
pub proof fn law_intern_keeps_keys(m: Seq<Seq<char>>, s: Seq<char>, k: int)
    requires
        0 <= k < m.len(),
    ensures
        resolve_spec(intern_spec(m, s).0, k) == resolve_spec(m, k),
{
}

/// Distinct texts get distinct keys.
pub proof fn law_intern_injective(m: Seq<Seq<char>>, s: Seq<char>, t: Seq<char>)
    requires
        m.no_duplicates(),
        s != t,
    ensures
        intern_spec(intern_spec(m, s).0, t).1 != intern_spec(m, s).1,
{
    let (m2, ks) = intern_spec(m, s);
    law_resolve_after_intern(m, s);
    let (m3, kt) = intern_spec(m2, t);
    if m.contains(s) {
        let w = m.index_of(s);
        assert(m[w] == s);
    } else {
        assert(m2[m.len() as int] == s);
    }
    assert(m2[ks as int] == s);
    if m2.contains(t) {
        let w = m2.index_of(t);
        assert(m2[w] == t);
    }
}

/// Interning a text that the table holds gives its key and leaves the table as it is.
pub proof fn law_intern_known_text(m: Seq<Seq<char>>, k: int)
    requires
        m.no_duplicates(),
        0 <= k < m.len(),
    ensures
        intern_spec(m, m[k]) == (m, k as nat),
{
    assert(m.contains(m[k]));
    let w = m.index_of(m[k]);
    assert(m[w] == m[k]);
}

/// `camino::Utf8Path::is_absolute` on the text (std's `Path::is_absolute`). What it
/// answers depends on the platform the program runs on (a drive prefix counts on
/// Windows only). The answer stated: a text that neither begins with `/` or `\\` nor
/// holds `:` has no root and no prefix (every Windows prefix begins with `\\` or
/// holds the `:` of a drive), so it is not absolute anywhere.
#[verifier::external_body]
fn path_is_absolute(s: &str) -> (r: bool)
    ensures
        relative_text(s@) ==> !r,
{
    camino::Utf8Path::new(s).is_absolute()
}

/// A text that neither begins with `/` or `\\` nor holds `:`.
pub open spec fn relative_text(s: Seq<char>) -> bool {
    (s.len() == 0 || (s[0] != '/' && s[0] != '\\')) && !s.contains(':')
}

/// Why an absolute path was refused.
#[derive(Debug, Clone, PartialEq, Eq)]
pub enum AbsolutePathError {
    /// The platform does not take the path for an absolute one.
    NotAbsolute(String),
    InternerError(InternerError),
}

/// The key of an interned absolute path.
#[derive(Debug, Clone, Copy, PartialEq, Eq, Hash)]
pub struct InternedAbsolutePath {
    interned: InternedString,
}

impl InternedAbsolutePath {
    pub closed spec fn key(self) -> u64 {
        self.interned.0
    }

    /// Interns `path` if the platform takes it for an absolute path.
    pub fn new(path: &str, interner: &mut Interner) -> (r: Result<Self, AbsolutePathError>)
        requires
            old(interner)@.len() < usize::MAX,
        ensures
            r matches Ok(p) ==> (final(interner)@, p.key() as nat) == intern_spec(
                old(interner)@,
                path@,
            ),
            r matches Err(e) ==> (e matches AbsolutePathError::NotAbsolute(t) && t@ == path@
                && final(interner)@ == old(interner)@),
            relative_text(path@) ==> r is Err,
    {
        let absolute = path_is_absolute(path);
        Self::new_checked(path, absolute, interner)
    }

    /// Interns `path` when `is_absolute` says the platform takes it for absolute.
    pub fn new_checked(path: &str, is_absolute: bool, interner: &mut Interner) -> (r: Result<
        Self,
        AbsolutePathError,
    >)
        requires
            old(interner)@.len() < usize::MAX,
        ensures
            is_absolute ==> (r matches Ok(p) && (final(interner)@, p.key() as nat) == intern_spec(
                old(interner)@,
                path@,
            )),
            !is_absolute ==> (r matches Err(AbsolutePathError::NotAbsolute(t)) && t@ == path@
                && final(interner)@ == old(interner)@),
    {
        if !is_absolute {
            return Err(AbsolutePathError::NotAbsolute(String::from_str(path)));
        }
        match interner.get_or_intern(path) {
            Ok(k) => Ok(InternedAbsolutePath { interned: k }),
            Err(e) => Err(AbsolutePathError::InternerError(e)),
        }
    }

    /// The path of an interned text, if the platform takes the text for absolute.
    pub fn from_interned(key: InternedString, interner: &Interner) -> (r: Result<
        Option<Self>,
        InternerError,
    >)
        ensures
            match resolve_spec(interner@, key.0 as int) {
                Some(t) => r matches Ok(o) && (o matches Some(p) ==> p.key() == key.0) && (
                relative_text(t) ==> o is None),
                None => r == Err::<Option<Self>, InternerError>(InternerError::KeyNotFound(key.0)),
            },
    {
        match interner.resolve(&key) {
            Ok(text) => {
                if path_is_absolute(text) {
                    Ok(Some(InternedAbsolutePath { interned: key }))
                } else {
                    Ok(None)
                }
            },
            Err(e) => Err(e),
        }
    }

    pub fn interned(&self) -> (r: InternedString)
        ensures
            r.0 == self.key(),
    {
        self.interned
    }

    /// The path of a key whose text is known to be absolute, as when it was
    /// persisted from such a path.
    pub(crate) fn from_interned_unchecked(key: InternedString) -> (r: Self)
        ensures
            r.key() == key.0,
    {
        InternedAbsolutePath { interned: key }
    }

    /// The text of the path.
    pub fn resolve<'a>(&self, interner: &'a Interner) -> (r: Result<&'a str, InternerError>)
        ensures
            match resolve_spec(interner@, self.key() as int) {
                Some(t) => r matches Ok(s) && s@ == t,
                None => r is Err,
            },
    {
        interner.resolve(&self.interned)
    }
}

} // verus!
