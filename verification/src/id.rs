//! Identifiers: Unicode XID identifiers and their loose (`-` allowing) form.
use vstd::prelude::*;

use crate::intern::{intern_spec, resolve_spec, InternedString, Interner, InternerError};
use crate::package_id::{
    lemma_extends_refl, lemma_extends_trans, lemma_intern_extends, lemma_key_survives,
};
use crate::path::spec::{after_last, first_index, is_ascii_alpha};
use crate::text::{
    chars_of, last_index_exec, lemma_first_index_holds, lemma_last_index_holds, range_first_index,
    split_char, split_char_ranges,
};

verus! {

/// Whether `c` has the Unicode `XID_Start` property.
pub uninterp spec fn xid_start(c: char) -> bool;

/// Whether `c` has the Unicode `XID_Continue` property.
pub uninterp spec fn xid_continue(c: char) -> bool;

pub open spec fn is_ascii_digit(c: char) -> bool {
    '0' <= c && c <= '9'
}

/// `unicode_ident::is_xid_start`. Claimed: the result is `xid_start(c)`,
/// and on ASCII it holds exactly for the letters (the crate's ASCII table).
#[verifier::external_body]
fn is_xid_start_char(c: char) -> (r: bool)
    ensures
        r == xid_start(c),
        (c as u32) < 128 ==> (r <==> is_ascii_alpha(c)),
{
    unicode_ident::is_xid_start(c)
}

/// `unicode_ident::is_xid_continue`. Claimed: the result is
/// `xid_continue(c)`, and on ASCII it holds exactly for letters, digits and `_`.
#[verifier::external_body]
fn is_xid_continue_char(c: char) -> (r: bool)
    ensures
        r == xid_continue(c),
        (c as u32) < 128 ==> (r <==> (is_ascii_alpha(c) || is_ascii_digit(c) || c == '_')),
{
    unicode_ident::is_xid_continue(c)
}

/// A character that can start an identifier besides `_`: an ASCII letter, or
/// beyond ASCII a character with the Unicode `XID_Start` property.
pub open spec fn start_char(c: char) -> bool {
    if (c as u32) < 128 {
        is_ascii_alpha(c)
    } else {
        xid_start(c)
    }
}

/// A character that can continue an identifier: an ASCII letter, digit or `_`, or
/// beyond ASCII a character with the Unicode `XID_Continue` property.
pub open spec fn continue_char(c: char) -> bool {
    if (c as u32) < 128 {
        is_ascii_alpha(c) || is_ascii_digit(c) || c == '_'
    } else {
        xid_continue(c)
    }
}

/// An identifier: a non-empty text whose first character can start one or is `_`
/// and whose others can continue one (or are also `-` when `loose`).
pub open spec fn ident_spec(s: Seq<char>, loose: bool) -> bool {
    &&& s.len() > 0
    &&& (start_char(s[0]) || s[0] == '_')
    &&& forall|i: int|
        1 <= i < s.len() ==> continue_char(#[trigger] s[i]) || (loose && s[i] == '-')
}

fn ident_check(s: &str, loose: bool) -> (r: bool)
    ensures
        r == ident_spec(s@, loose),
{
    let chars = chars_of(s);
    let n = chars.len();
    if n == 0 {
        return false;
    }
    let first = chars[0];
    if !(is_xid_start_char(first) || first == '_') {
        return false;
    }
    let mut i: usize = 1;
    while i < n
        invariant
            n == chars@.len(),
            chars@ == s@,
            1 <= i <= n,
            forall|j: int| 1 <= j < i ==> continue_char(#[trigger] s@[j]) || (loose && s@[j] == '-'),
        decreases n - i,
    {
        let c = chars[i];
        if !(is_xid_continue_char(c) || (loose && c == '-')) {
            return false;
        }
        i = i + 1;
    }
    true
}

/// Whether `s` is an identifier (Unicode XID, like Rust identifiers).
pub fn is_xid_ident(s: &str) -> (r: bool)
    ensures
        r == ident_spec(s@, false),
{
    ident_check(s, false)
}

/// Whether `s` is a loose identifier: an identifier that may also hold `-`.
pub fn is_xid_loose_ident(s: &str) -> (r: bool)
    ensures
        r == ident_spec(s@, true),
{
    ident_check(s, true)
}

/// The check that package parts and atoms pass: a loose identifier.
pub fn is_loose_ident(s: &str) -> (r: bool)
    ensures
        r == ident_spec(s@, true),
{
    ident_check(s, true)
}

/// Why an identifier was refused.
#[derive(Debug)]
pub enum IdParseError {
    /// The text is not a loose identifier.
    InvalidAtom(String),
    /// The text is not a `/`-separated list of loose identifiers.
    InvalidPath(String),
    /// The text is neither empty nor `@` and an identifier.
    InvalidPackageRef(String),
    /// The text is not of the form `[@package]//path[:target]`.
    InvalidLabel(String),
    InternerError(InternerError),
}

/// An interned loose identifier.
#[derive(Debug, Clone, Copy, PartialEq, Eq, Hash)]
pub struct InternedAtom(pub InternedString);

impl InternedAtom {
    /// Interns `s` when it is a loose identifier.
    pub fn try_parse(s: &str, interner: &mut Interner) -> (r: Result<Self, IdParseError>)
        requires
            old(interner)@.len() < usize::MAX,
        ensures
            ident_spec(s@, true) ==> (r matches Ok(a) && (final(interner)@, a.0.0 as nat)
                == intern_spec(old(interner)@, s@)),
            !ident_spec(s@, true) ==> (r matches Err(IdParseError::InvalidAtom(t)) && t@ == s@
                && final(interner)@ == old(interner)@),
    {
        if !is_xid_loose_ident(s) {
            return Err(IdParseError::InvalidAtom(String::from_str(s)));
        }
        match interner.get_or_intern(s) {
            Ok(k) => Ok(InternedAtom(k)),
            Err(e) => Err(IdParseError::InternerError(e)),
        }
    }
}

/// A path of a label: empty, or `/`-separated loose identifiers.
pub open spec fn path_ok(s: Seq<char>) -> bool {
    s.len() == 0 || forall|j: int|
        0 <= j < split_char(s, '/').len() ==> ident_spec(#[trigger] split_char(s, '/')[j], true)
}

/// A package reference: empty (this package), or `@` and an identifier.
pub open spec fn package_ref_ok(s: Seq<char>) -> bool {
    s.len() == 0 || (s[0] == '@' && ident_spec(s.skip(1), false))
}

/// The package name a reference stands for (without the `@`).
pub open spec fn package_ref_name(s: Seq<char>) -> Seq<char> {
    if s.len() == 0 {
        s
    } else {
        s.skip(1)
    }
}

/// Whether every `/`-separated part of `s` is a loose identifier.
fn parts_are_loose(s: &str) -> (r: bool)
    ensures
        r == (forall|j: int|
            0 <= j < split_char(s@, '/').len() ==> ident_spec(
                #[trigger] split_char(s@, '/')[j],
                true,
            )),
{
    let chars = chars_of(s);
    let ranges = split_char_ranges(&chars, '/');
    let ghost parts = split_char(s@, '/');
    let mut k: usize = 0;
    while k < ranges.len()
        invariant
            chars@ == s@,
            parts == split_char(s@, '/'),
            ranges@.len() == parts.len(),
            forall|j: int|
                0 <= j < ranges@.len() ==> #[trigger] ranges@[j].0 <= ranges@[j].1 && ranges@[j].1
                    <= chars@.len(),
            forall|j: int|
                0 <= j < ranges@.len() ==> chars@.subrange(
                    #[trigger] ranges@[j].0 as int,
                    ranges@[j].1 as int,
                ) == parts[j],
            k <= ranges@.len(),
            forall|j: int| 0 <= j < k ==> ident_spec(#[trigger] parts[j], true),
        decreases ranges@.len() - k,
    {
        let (lo, hi) = ranges[k];
        let part = s.substring_char(lo, hi);
        assert(part@ == parts[k as int]);
        if !is_xid_loose_ident(part) {
            return false;
        }
        k = k + 1;
    }
    true
}

fn path_check(s: &str) -> (r: bool)
    ensures
        r == path_ok(s@),
{
    s.unicode_len() == 0 || parts_are_loose(s)
}

fn package_ref_check(s: &str) -> (r: bool)
    ensures
        r == package_ref_ok(s@),
{
    let n = s.unicode_len();
    if n == 0 {
        return true;
    }
    if s.get_char(0) != '@' {
        return false;
    }
    let name = s.substring_char(1, n);
    assert(name@ =~= s@.skip(1));
    is_xid_ident(name)
}

/// An interned label path.
#[derive(Debug, Clone, Copy, PartialEq, Eq, Hash)]
pub struct InternedPath(pub InternedString);

/// An interned package reference: the package name, or empty for this package.
#[derive(Debug, Clone, Copy, PartialEq, Eq, Hash)]
pub struct InternedPackageRef(pub InternedString);

impl InternedPath {
    /// Interns `s` when it is empty or a `/`-separated list of loose identifiers.
    pub fn try_parse(s: &str, interner: &mut Interner) -> (r: Result<Self, IdParseError>)
        requires
            old(interner)@.len() < usize::MAX,
        ensures
            path_ok(s@) ==> (r matches Ok(p) && (final(interner)@, p.0.0 as nat) == intern_spec(
                old(interner)@,
                s@,
            )),
            !path_ok(s@) ==> (r matches Err(IdParseError::InvalidPath(t)) && t@ == s@
                && final(interner)@ == old(interner)@),
    {
        if !path_check(s) {
            return Err(IdParseError::InvalidPath(String::from_str(s)));
        }
        match interner.get_or_intern(s) {
            Ok(k) => Ok(InternedPath(k)),
            Err(e) => Err(IdParseError::InternerError(e)),
        }
    }
}

impl InternedPackageRef {
    /// Interns the package name of `s` when `s` is empty or `@` and an identifier.
    pub fn try_parse(s: &str, interner: &mut Interner) -> (r: Result<Self, IdParseError>)
        requires
            old(interner)@.len() < usize::MAX,
        ensures
            package_ref_ok(s@) ==> (r matches Ok(p) && (final(interner)@, p.0.0 as nat)
                == intern_spec(old(interner)@, package_ref_name(s@))),
            !package_ref_ok(s@) ==> (r matches Err(IdParseError::InvalidPackageRef(t)) && t@
                == s@ && final(interner)@ == old(interner)@),
    {
        if !package_ref_check(s) {
            return Err(IdParseError::InvalidPackageRef(String::from_str(s)));
        }
        let n = s.unicode_len();
        let name = if n == 0 {
            s
        } else {
            s.substring_char(1, n)
        };
        assert(name@ =~= package_ref_name(s@));
        match interner.get_or_intern(name) {
            Ok(k) => Ok(InternedPackageRef(k)),
            Err(e) => Err(IdParseError::InternerError(e)),
        }
    }
}

/// The package part of a label: the text before the first `/`.
pub open spec fn label_package(s: Seq<char>) -> Seq<char> {
    s.take(first_index(s, '/') as int)
}

/// The text after the `//` of a label.
pub open spec fn label_body(s: Seq<char>) -> Seq<char> {
    s.skip(first_index(s, '/') as int + 2)
}

/// The path of a label: the body up to the first `:`.
pub open spec fn label_path(s: Seq<char>) -> Seq<char> {
    label_body(s).take(first_index(label_body(s), ':') as int)
}

/// The target of a label: after the `:`, or else the last part of the path.
pub open spec fn label_target(s: Seq<char>) -> Seq<char> {
    let b = label_body(s);
    if first_index(b, ':') < b.len() {
        b.skip(first_index(b, ':') as int + 1)
    } else {
        after_last(label_path(s), '/')
    }
}

/// The label has `//` after its package part.
pub open spec fn label_shape_ok(s: Seq<char>) -> bool {
    first_index(s, '/') + 1 < s.len() && s[first_index(s, '/') + 1int] == '/'
}

/// A valid label: `[@package]//path[:target]`.
pub open spec fn label_ok(s: Seq<char>) -> bool {
    &&& label_shape_ok(s)
    &&& package_ref_ok(label_package(s))
    &&& path_ok(label_path(s))
    &&& ident_spec(label_target(s), true)
}

/// The table after interning a label's package name, path and target, and their keys.
pub open spec fn label_intern(m: Seq<Seq<char>>, s: Seq<char>) -> (Seq<Seq<char>>, nat, nat, nat) {
    let (m1, kp) = intern_spec(m, package_ref_name(label_package(s)));
    let (m2, kh) = intern_spec(m1, label_path(s));
    let (m3, kt) = intern_spec(m2, label_target(s));
    (m3, kp, kh, kt)
}

/// The text of a label from the texts of its keys: `package//path:target`.
pub open spec fn label_text(m: Seq<Seq<char>>, kp: int, kh: int, kt: int) -> Option<Seq<char>> {
    match (resolve_spec(m, kp), resolve_spec(m, kh), resolve_spec(m, kt)) {
        (Some(p), Some(h), Some(t)) => Some(p + "//"@ + h + ":"@ + t),
        _ => None,
    }
}

/// A target: a package, a path in it, and a name.
#[derive(Debug, Clone, Copy, PartialEq, Eq, Hash)]
pub struct Label {
    pub package_ref: InternedPackageRef,
    pub path: InternedPath,
    pub target: InternedAtom,
}

impl Label {
    /// Parses and interns `[@package]//path[:target]`; without a target, the last
    /// part of the path names it.
    pub fn try_parse(s: &str, interner: &mut Interner) -> (r: Result<Self, IdParseError>)
        requires
            old(interner)@.len() < usize::MAX - 2,
        ensures
            !label_shape_ok(s@) ==> (r matches Err(IdParseError::InvalidLabel(t)) && t@ == s@),
            label_shape_ok(s@) && !package_ref_ok(label_package(s@)) ==> (r matches Err(
                IdParseError::InvalidPackageRef(t),
            ) && t@ == label_package(s@)),
            label_shape_ok(s@) && package_ref_ok(label_package(s@)) && !path_ok(label_path(s@))
                ==> (r matches Err(IdParseError::InvalidPath(t)) && t@ == label_path(s@)),
            label_shape_ok(s@) && package_ref_ok(label_package(s@)) && path_ok(label_path(s@))
                && !ident_spec(label_target(s@), true) ==> (r matches Err(
                IdParseError::InvalidAtom(t),
            ) && t@ == label_target(s@)),
            !label_ok(s@) ==> final(interner)@ == old(interner)@,
            label_ok(s@) ==> (r matches Ok(l) && (
                final(interner)@,
                l.package_ref.0.0 as nat,
                l.path.0.0 as nat,
                l.target.0.0 as nat,
            ) == label_intern(old(interner)@, s@)),
    {
        let chars = chars_of(s);
        let n = chars.len();
        let i = range_first_index(&chars, 0, n, '/');
        proof {
            assert(chars@.subrange(0, n as int) =~= s@);
            lemma_first_index_holds(s@, '/');
        }
        if i >= n || i + 1 == n || chars[i + 1] != '/' {
            return Err(IdParseError::InvalidLabel(String::from_str(s)));
        }
        let pkg = s.substring_char(0, i);
        let body = s.substring_char(i + 2, n);
        assert(pkg@ =~= label_package(s@));
        assert(body@ =~= label_body(s@));
        let bchars = chars_of(body);
        let bn = bchars.len();
        let c = range_first_index(&bchars, 0, bn, ':');
        proof {
            assert(bchars@.subrange(0, bn as int) =~= body@);
            lemma_first_index_holds(body@, ':');
        }
        let path = body.substring_char(0, c);
        assert(path@ =~= label_path(s@));
        let target = if c < bn {
            body.substring_char(c + 1, bn)
        } else {
            let pchars = chars_of(path);
            let j = last_index_exec(&pchars, '/');
            proof {
                lemma_last_index_holds(path@, '/');
            }
            path.substring_char(j, pchars.len())
        };
        assert(target@ =~= label_target(s@));
        if !package_ref_check(pkg) {
            return Err(IdParseError::InvalidPackageRef(String::from_str(pkg)));
        }
        if !path_check(path) {
            return Err(IdParseError::InvalidPath(String::from_str(path)));
        }
        if !is_xid_loose_ident(target) {
            return Err(IdParseError::InvalidAtom(String::from_str(target)));
        }
        let package_ref = match InternedPackageRef::try_parse(pkg, interner) {
            Ok(p) => p,
            Err(e) => {
                return Err(e);
            },
        };
        let path_key = match InternedPath::try_parse(path, interner) {
            Ok(p) => p,
            Err(e) => {
                return Err(e);
            },
        };
        let target_key = match InternedAtom::try_parse(target, interner) {
            Ok(t) => t,
            Err(e) => {
                return Err(e);
            },
        };
        Ok(Label { package_ref, path: path_key, target: target_key })
    }

    /// The text `package//path:target` of the label, when the interner knows its keys.
    pub fn resolved(&self, interner: &Interner) -> (r: Result<String, InternerError>)
        ensures
            match label_text(
                interner@,
                self.package_ref.0.0 as int,
                self.path.0.0 as int,
                self.target.0.0 as int,
            ) {
                Some(t) => r matches Ok(u) && u@ == t,
                None => r is Err,
            },
    {
        let p = match interner.resolve(&self.package_ref.0) {
            Ok(p) => p,
            Err(e) => {
                return Err(e);
            },
        };
        let h = match interner.resolve(&self.path.0) {
            Ok(h) => h,
            Err(e) => {
                return Err(e);
            },
        };
        let t = match interner.resolve(&self.target.0) {
            Ok(t) => t,
            Err(e) => {
                return Err(e);
            },
        };
        let mut out = String::from_str(p);
        out.append("//");
        out.append(h);
        out.append(":");
        out.append(t);
        proof {
            reveal_strlit("//");
            reveal_strlit(":");
        }
        Ok(out)
    }
}

/// A label resolves to the name of its package, `//`, its path, `:` and its target,
/// whatever the interner held before it was parsed.
pub proof fn law_label_resolves(m: Seq<Seq<char>>, s: Seq<char>)
    ensures
        ({
            let (m3, kp, kh, kt) = label_intern(m, s);
            label_text(m3, kp as int, kh as int, kt as int) == Some(
                package_ref_name(label_package(s)) + "//"@ + label_path(s) + ":"@ + label_target(s),
            )
        }),
{
    let p = package_ref_name(label_package(s));
    let h = label_path(s);
    let t = label_target(s);
    let (m1, kp) = intern_spec(m, p);
    let (m2, kh) = intern_spec(m1, h);
    let (m3, kt) = intern_spec(m2, t);
    lemma_intern_extends(m1, h);
    lemma_intern_extends(m2, t);
    lemma_extends_trans(m1, m2, m3);
    lemma_extends_refl(m3);
    lemma_key_survives(m, p, m3);
    lemma_key_survives(m1, h, m3);
    lemma_key_survives(m2, t, m3);
}

} // verus!
