//! `NeutralPath`: a normalized, relative, platform neutral path.
use vstd::prelude::*;

pub mod interned;
pub mod laws;
pub mod lemmas;
pub mod spec;

use crate::path::laws::{
    canonical, is_normal, law_from_path_canonical, law_from_path_idempotent,
    law_normalize_idempotent,
};
use crate::path::lemmas::{
    lemma_common_prefix_at, lemma_dot_path, lemma_dotdot_ok, lemma_render_inv, lemma_first_absolute_prefix, lemma_first_absolute_push,
    lemma_fold_checked_prefix_err, lemma_join_dotdot_ok, lemma_normalized_ok, lemma_split_step,
    lemma_take_full,
};
use crate::path::spec::{
    absolute_check, ascii_upper, concat_parts, extname_spec, filename_spec, first_absolute,
    component_ok, join_all_spec, join_spec, relative_parts, relative_spec,
    starts_with_dotdot, fold_checked, fold_components, from_path_spec,
    has_drive_prefix, is_ascii_alpha, leads_up, is_dot, is_dotdot, is_named, is_reserved_upper, join_slash,
    name_check, neutral_inv, normalize_spec, push_component, render, split_parts, stem, upper_seq,
};
use crate::text::{
    chars_of, is_ascii_alpha_exec, last_index_exec, range_contains, range_first_index,
};

verus! {

/// Why a text is not a neutral path.
#[derive(Debug)]
pub enum PathError {
    EmptyPath,
    InvalidFormat(&'static str),
    InvalidCharacter(&'static str),
    InvalidUnicodeData(),
    PathIsAbsolute(),
}

/// The components of a path text, as `(start, end)` character ranges.
pub open spec fn ranges_valid(n: int, st: Seq<(usize, usize)>) -> bool {
    forall|k: int| 0 <= k < st.len() ==> #[trigger] st[k].0 <= st[k].1 && st[k].1 <= n
}

pub open spec fn ranges_view(s: Seq<char>, st: Seq<(usize, usize)>) -> Seq<Seq<char>> {
    Seq::new(st.len(), |k: int| s.subrange(st[k].0 as int, st[k].1 as int))
}

/// Whether `chars[lo..hi]` is `..`.
fn range_is_dotdot(chars: &Vec<char>, lo: usize, hi: usize) -> (r: bool)
    requires
        lo <= hi <= chars@.len(),
    ensures
        r == is_dotdot(chars@.subrange(lo as int, hi as int)),
{
    let r = hi - lo == 2 && chars[lo] == '.' && chars[lo + 1] == '.';
    proof {
        let p = chars@.subrange(lo as int, hi as int);
        if r {
            assert(p =~= seq!['.', '.']);
        } else if p == seq!['.', '.'] {
            assert(p.len() == 2 && p[0] == '.' && p[1] == '.');
        }
    }
    r
}

/// Whether `chars[lo..hi]` is `.`.
fn range_is_dot(chars: &Vec<char>, lo: usize, hi: usize) -> (r: bool)
    requires
        lo <= hi <= chars@.len(),
    ensures
        r == is_dot(chars@.subrange(lo as int, hi as int)),
{
    let r = hi - lo == 1 && chars[lo] == '.';
    proof {
        let p = chars@.subrange(lo as int, hi as int);
        if r {
            assert(p =~= seq!['.']);
        } else if p == seq!['.'] {
            assert(p.len() == 1 && p[0] == '.');
        }
    }
    r
}

/// Applies one normalisation step for the part `chars[lo..hi]`.
fn push_part(
    chars: &Vec<char>,
    stack: &mut Vec<(usize, usize)>,
    lo: usize,
    hi: usize,
    check: bool,
) -> (r: Result<(), PathError>)
    requires
        lo <= hi <= chars@.len(),
        ranges_valid(chars@.len() as int, old(stack)@),
    ensures
        ranges_valid(chars@.len() as int, final(stack)@),
        ({
            let p = chars@.subrange(lo as int, hi as int);
            let st = ranges_view(chars@, old(stack)@);
            if check && is_named(p) {
                &&& r == name_check(p)
                &&& r is Ok ==> ranges_view(chars@, final(stack)@) == st.push(p)
            } else {
                &&& r is Ok
                &&& ranges_view(chars@, final(stack)@) == push_component(st, p)
            }
        }),
{
    let ghost p = chars@.subrange(lo as int, hi as int);
    let ghost st = ranges_view(chars@, stack@);
    if hi == lo || range_is_dot(chars, lo, hi) {
        return Ok(());
    }
    if range_is_dotdot(chars, lo, hi) {
        let len = stack.len();
        if len > 0 {
            let (tlo, thi) = stack[len - 1];
            if !range_is_dotdot(chars, tlo, thi) {
                stack.pop();
                assert(ranges_view(chars@, stack@) =~= st.drop_last());
                return Ok(());
            }
        }
        stack.push((lo, hi));
        assert(ranges_view(chars@, stack@) =~= st.push(p));
        return Ok(());
    }
    if check {
        let r = name_check_range(chars, lo, hi);
        if r.is_err() {
            return r;
        }
    }
    stack.push((lo, hi));
    assert(ranges_view(chars@, stack@) =~= st.push(p));
    Ok(())
}

/// The name checks on `chars[lo..hi]`.
fn name_check_range(chars: &Vec<char>, lo: usize, hi: usize) -> (r: Result<(), PathError>)
    requires
        lo <= hi <= chars@.len(),
    ensures
        r == name_check(chars@.subrange(lo as int, hi as int)),
{
    let ghost p = chars@.subrange(lo as int, hi as int);
    if range_contains(chars, lo, hi, '\0') {
        return Err(PathError::InvalidCharacter("\\0"));
    }
    if range_contains(chars, lo, hi, '<') {
        return Err(PathError::InvalidCharacter("<"));
    }
    if range_contains(chars, lo, hi, '>') {
        return Err(PathError::InvalidCharacter(">"));
    }
    if range_contains(chars, lo, hi, ':') {
        return Err(PathError::InvalidCharacter(":"));
    }
    if range_contains(chars, lo, hi, '"') {
        return Err(PathError::InvalidCharacter("\""));
    }
    if range_contains(chars, lo, hi, '|') {
        return Err(PathError::InvalidCharacter("|"));
    }
    if range_contains(chars, lo, hi, '?') {
        return Err(PathError::InvalidCharacter("?"));
    }
    if range_contains(chars, lo, hi, '*') {
        return Err(PathError::InvalidCharacter("*"));
    }
    if hi > lo && chars[hi - 1] == ' ' {
        return Err(PathError::InvalidFormat("space ` ` at the end"));
    }
    if hi > lo && chars[hi - 1] == '.' {
        return Err(PathError::InvalidFormat("dot `.` at the end"));
    }
    let k = range_first_index(chars, lo, hi, '.');
    if is_reserved_stem(chars, lo, lo + k) {
        proof {
            assert(stem(p) =~= chars@.subrange(lo as int, (lo + k) as int));
        }
        return Err(PathError::InvalidCharacter("Windows reserved name"));
    }
    proof {
        assert(stem(p) =~= chars@.subrange(lo as int, (lo + k) as int));
    }
    if range_contains(chars, lo, hi, '\'') {
        return Err(PathError::InvalidCharacter("\'"));
    }
    if range_contains(chars, lo, hi, '`') {
        return Err(PathError::InvalidCharacter("`"));
    }
    if range_contains(chars, lo, hi, '$') {
        return Err(PathError::InvalidCharacter("$"));
    }
    Ok(())
}

/// Whether `c` upper-cased (ASCII only) is the upper-case letter `u`.
fn upper_is(c: char, u: char) -> (r: bool)
    requires
        'A' <= u <= 'Z',
    ensures
        r == (ascii_upper(c) == u),
{
    c == u || (c as u32) == (u as u32) + 32
}

/// Whether `chars[lo..hi]`, upper-cased, is a reserved Windows device name.
fn is_reserved_stem(chars: &Vec<char>, lo: usize, hi: usize) -> (r: bool)
    requires
        lo <= hi <= chars@.len(),
    ensures
        r == is_reserved_upper(upper_seq(chars@.subrange(lo as int, hi as int))),
{
    let ghost u = upper_seq(chars@.subrange(lo as int, hi as int));
    if hi - lo == 3 {
        let a = chars[lo];
        let b = chars[lo + 1];
        let c = chars[lo + 2];
        let r = (upper_is(a, 'C') && upper_is(b, 'O') && upper_is(c, 'N')) || (upper_is(a, 'P')
            && upper_is(b, 'R') && upper_is(c, 'N')) || (upper_is(a, 'A') && upper_is(b, 'U')
            && upper_is(c, 'X')) || (upper_is(a, 'N') && upper_is(b, 'U') && upper_is(c, 'L'));
        proof {
            assert(u.len() == 3);
            assert(u[0] == ascii_upper(a) && u[1] == ascii_upper(b) && u[2] == ascii_upper(c));
            if r {
                assert(u =~= seq!['C', 'O', 'N'] || u =~= seq!['P', 'R', 'N'] || u =~= seq![
                    'A',
                    'U',
                    'X',
                ] || u =~= seq!['N', 'U', 'L']);
            } else {
                assert(u != seq!['C', 'O', 'N']) by {
                    if u == seq!['C', 'O', 'N'] {
                        assert(u[0] == 'C' && u[1] == 'O' && u[2] == 'N');
                    }
                }
                assert(u != seq!['P', 'R', 'N']) by {
                    if u == seq!['P', 'R', 'N'] {
                        assert(u[0] == 'P' && u[1] == 'R' && u[2] == 'N');
                    }
                }
                assert(u != seq!['A', 'U', 'X']) by {
                    if u == seq!['A', 'U', 'X'] {
                        assert(u[0] == 'A' && u[1] == 'U' && u[2] == 'X');
                    }
                }
                assert(u != seq!['N', 'U', 'L']) by {
                    if u == seq!['N', 'U', 'L'] {
                        assert(u[0] == 'N' && u[1] == 'U' && u[2] == 'L');
                    }
                }
            }
        }
        r
    } else if hi - lo == 4 {
        let a = chars[lo];
        let b = chars[lo + 1];
        let c = chars[lo + 2];
        let d = chars[lo + 3];
        let prefix = (upper_is(a, 'C') && upper_is(b, 'O') && upper_is(c, 'M')) || (upper_is(
            a,
            'L',
        ) && upper_is(b, 'P') && upper_is(c, 'T'));
        let last = ('1' <= d && d <= '9') || d == '\u{b9}' || d == '\u{b2}' || d == '\u{b3}';
        let r = prefix && last;
        proof {
            assert(u.len() == 4);
            assert(u[0] == ascii_upper(a) && u[1] == ascii_upper(b) && u[2] == ascii_upper(c)
                && u[3] == ascii_upper(d));
            assert(last == (('1' <= u[3] && u[3] <= '9') || u[3] == '\u{b9}' || u[3] == '\u{b2}'
                || u[3] == '\u{b3}'));
            if prefix {
                assert(u.take(3) =~= seq!['C', 'O', 'M'] || u.take(3) =~= seq!['L', 'P', 'T']);
            } else {
                assert(u.take(3) != seq!['C', 'O', 'M']) by {
                    if u.take(3) == seq!['C', 'O', 'M'] {
                        assert(u.take(3)[0] == 'C' && u.take(3)[1] == 'O' && u.take(3)[2] == 'M');
                    }
                }
                assert(u.take(3) != seq!['L', 'P', 'T']) by {
                    if u.take(3) == seq!['L', 'P', 'T'] {
                        assert(u.take(3)[0] == 'L' && u.take(3)[1] == 'P' && u.take(3)[2] == 'T');
                    }
                }
            }
        }
        r
    } else {
        proof {
            assert(u.len() == hi - lo);
            assert(seq!['C', 'O', 'N'].len() == 3 && seq!['P', 'R', 'N'].len() == 3);
            assert(seq!['A', 'U', 'X'].len() == 3 && seq!['N', 'U', 'L'].len() == 3);
        }
        false
    }
}

/// Normalizes a path text; with `check`, every named component must pass
/// the name checks.
fn internal_normalize(path: &str, check: bool) -> (r: Result<NeutralPath, PathError>)
    requires
        !check ==> neutral_inv(path@),
    ensures
        match normalize_spec(path@, check) {
            Ok(t) => r matches Ok(np) && np@ == t,
            Err(e) => r == Err::<NeutralPath, PathError>(e),
        },
{
    let chars = chars_of(path);
    let n = chars.len();
    let ghost s = chars@;
    let mut stack: Vec<(usize, usize)> = Vec::new();
    let mut start: usize = 0;
    let mut i: usize = 0;
    proof {
        assert(s.take(0) =~= Seq::<char>::empty());
        assert(ranges_view(s, stack@) =~= Seq::<Seq<char>>::empty());
        assert(s.subrange(0, 0) =~= Seq::<char>::empty());
    }
    while i < n
        invariant
            n == s.len(),
            s == chars@,
            s == path@,
            start <= i <= n,
            ranges_valid(n as int, stack@),
            split_parts(s.take(i as int), true).len() >= 1,
            split_parts(s.take(i as int), true).last() == s.subrange(start as int, i as int),
            check ==> fold_checked(split_parts(s.take(i as int), true).drop_last()) == Ok::<
                Seq<Seq<char>>,
                PathError,
            >(ranges_view(s, stack@)),
            !check ==> fold_components(split_parts(s.take(i as int), true).drop_last())
                == ranges_view(s, stack@),
        decreases n - i,
    {
        let ghost parts = split_parts(s.take(i as int), true);
        proof {
            lemma_split_step(s, i as int, true);
        }
        if chars[i] == '/' || chars[i] == '\\' {
            let ghost st = ranges_view(s, stack@);
            let r = push_part(&chars, &mut stack, start, i, check);
            proof {
                assert(parts.drop_last().push(parts.last()) =~= parts);
                assert(parts =~= split_parts(s.take(i + 1), true).drop_last());
            }
            if let Err(e) = r {
                proof {
                    assert(fold_checked(parts) == Err::<Seq<Seq<char>>, PathError>(e));
                    lemma_fold_checked_prefix_err(s, i as int + 1);
                }
                return Err(e);
            }
            start = i + 1;
            proof {
                assert(s.subrange(start as int, (i + 1) as int) =~= Seq::<char>::empty());
            }
        } else {
            proof {
                assert(s.subrange(start as int, i as int).push(s[i as int]) =~= s.subrange(
                    start as int,
                    (i + 1) as int,
                ));
            }
        }
        i = i + 1;
    }
    proof {
        lemma_take_full(s);
    }
    let ghost parts = split_parts(s, true);
    let r = push_part(&chars, &mut stack, start, n, check);
    proof {
        assert(parts.drop_last().push(parts.last()) =~= parts);
    }
    if r.is_err() {
        return match r {
            Err(e) => Err(e),
            Ok(_) => Err(PathError::EmptyPath),
        };
    }
    let out = render_ranges(path, &chars, &stack);
    proof {
        lemma_normalized_ok(s, check);
        lemma_render_inv(ranges_view(s, stack@));
    }
    Ok(NeutralPath(out))
}

/// Joins the ranges of `path` with `/`; `.` when there are none.
fn render_ranges(path: &str, chars: &Vec<char>, stack: &Vec<(usize, usize)>) -> (out: String)
    requires
        chars@ == path@,
        ranges_valid(chars@.len() as int, stack@),
    ensures
        out@ == render(ranges_view(chars@, stack@)),
{
    let ghost v = ranges_view(chars@, stack@);
    if stack.len() == 0 {
        proof {
            reveal_strlit(".");
        }
        return String::from_str(".");
    }
    let mut out = String::new();
    let mut k: usize = 0;
    proof {
        reveal_strlit("/");
        assert(v.take(0) =~= Seq::<Seq<char>>::empty());
    }
    while k < stack.len()
        invariant
            chars@ == path@,
            ranges_valid(chars@.len() as int, stack@),
            v == ranges_view(chars@, stack@),
            0 <= k <= stack.len(),
            stack.len() > 0,
            out@ == join_slash(v.take(k as int)),
        decreases stack.len() - k,
    {
        proof {
            reveal_strlit("/");
        }
        let (lo, hi) = stack[k];
        let piece = path.substring_char(lo, hi);
        assert(v.take(k as int + 1).drop_last() =~= v.take(k as int));
        assert(v.take(k as int + 1).last() == v[k as int]);
        if k > 0 {
            out.append("/");
        } else {
            assert(out@ =~= Seq::<char>::empty());
        }
        out.append(piece);
        proof {
            assert(piece@ == v[k as int]);
            if k == 0 {
                assert(v.take(1) =~= seq![v[0]]);
            }
        }
        k = k + 1;
    }
    proof {
        assert(v.take(stack.len() as int) =~= v);
    }
    out
}

/// A neutral, normalized, relative file path.
///
/// - always uses `/` as the separator;
/// - holds no redundant `.`, `..` or `/`, unless it starts with `..` or is `.`;
/// - holds no absolute or drive prefix;
/// - every component is valid on both Unix and Windows.
pub struct NeutralPath(String);

impl NeutralPath {
    #[verifier::type_invariant]
    spec fn inv(self) -> bool {
        neutral_inv(self.0@)
    }
}

impl View for NeutralPath {
    type V = Seq<char>;

    closed spec fn view(&self) -> Seq<char> {
        self.0@
    }
}

impl NeutralPath {
    /// The text; it always meets the path invariant.
    pub fn as_str(&self) -> (r: &str)
        ensures
            r@ == self@,
            neutral_inv(self@),
    {
        proof {
            use_type_invariant(self);
        }
        self.0.as_str()
    }

    /// Normalizes `s`, refusing absolute paths and invalid names.
    pub fn from_path(s: &str) -> (r: Result<NeutralPath, PathError>)
        ensures
            match from_path_spec(s@) {
                Ok(t) => r matches Ok(np) && np@ == t,
                Err(e) => r == Err::<NeutralPath, PathError>(e),
            },
            r matches Ok(np) ==> is_normal(np@) && canonical(np@),
    {
        proof {
            if from_path_spec(s@) is Ok {
                law_from_path_idempotent(s@);
                law_from_path_canonical(s@);
            }
        }
        let a = Self::check_if_absolute(s);
        match a {
            Err(e) => Err(e),
            Ok(_) => Self::checked_normalize(s),
        }
    }

    fn check_if_absolute(part: &str) -> (r: Result<(), PathError>)
        ensures
            r == absolute_check(part@),
    {
        let chars = chars_of(part);
        let n = chars.len();
        if n > 0 && (chars[0] == '/' || chars[0] == '\\') {
            return Err(PathError::PathIsAbsolute());
        }
        let mut i: usize = 0;
        while i < n && is_ascii_alpha_exec(chars[i])
            invariant
                n == chars@.len(),
                i <= n,
                forall|j: int| 0 <= j < i ==> is_ascii_alpha(#[trigger] chars@[j]),
            decreases n - i,
        {
            i = i + 1;
        }
        if i < n && chars[i] == ':' {
            proof {
                assert(has_drive_prefix(part@)) by {
                    assert(chars@[i as int] == ':');
                }
            }
            return Err(PathError::PathIsAbsolute());
        }
        proof {
            assert(!has_drive_prefix(part@)) by {
                if has_drive_prefix(part@) {
                    let w = choose|w: int|
                        0 <= w < part@.len() && part@[w] == ':' && (forall|j: int|
                            0 <= j < w ==> is_ascii_alpha(#[trigger] part@[j]));
                    if w < i {
                        assert(is_ascii_alpha(chars@[w]));
                    } else if w > i {
                        assert(is_ascii_alpha(part@[i as int]));
                    }
                }
            }
        }
        Ok(())
    }

    /// Whether `part` is a valid component name on every platform: no reserved
    /// character, no trailing space or dot, no reserved device name.
    pub fn check_path_name_is_valid(part: &str) -> (r: Result<(), PathError>)
        ensures
            r == name_check(part@),
    {
        let chars = chars_of(part);
        assert(chars@.subrange(0, chars@.len() as int) =~= part@);
        name_check_range(&chars, 0, chars.len())
    }

    fn unchecked_normalize(path: &NeutralPath) -> (r: NeutralPath)
        ensures
            r@ == render(fold_components(split_parts(path@, true))),
    {
        proof {
            use_type_invariant(path);
        }
        match internal_normalize(path.0.as_str(), false) {
            Ok(p) => p,
            Err(_) => unreached(),
        }
    }

    /// The path with `.`, empty and cancelled `..` components removed.
    pub fn normalize(&self) -> (r: Self)
        ensures
            r@ == render(fold_components(split_parts(self@, true))),
            is_normal(r@),
            canonical(r@),
    {
        proof {
            use_type_invariant(self);
            law_normalize_idempotent(self@);
        }
        Self::unchecked_normalize(self)
    }

    /// The path `.`.
    pub fn current_dir() -> (r: Self)
        ensures
            r@ == seq!['.'],
    {
        proof {
            reveal_strlit(".");
            assert("."@ =~= seq!['.']);
            lemma_dot_path();
        }
        match NeutralPath::from_path(".") {
            Ok(p) => p,
            Err(_) => unreached(),
        }
    }

    /// Joins a relative part onto this path and normalizes the result.
    pub fn join(&self, part: &str) -> (r: Result<Self, PathError>)
        ensures
            match join_spec(self@, part@) {
                Ok(t) => r matches Ok(np) && np@ == t,
                Err(e) => r == Err::<NeutralPath, PathError>(e),
            },
            r matches Ok(np) ==> is_normal(np@) && canonical(np@),
    {
        match Self::check_if_absolute(part) {
            Err(e) => Err(e),
            Ok(_) => {
                let mut joined = String::from_str(self.0.as_str());
                joined.append("/");
                joined.append(part);
                proof {
                    reveal_strlit("/");
                    assert("/"@ =~= seq!['/']);
                    assert(joined@ =~= self@ + seq!['/'] + part@);
                }
                NeutralPath::from_path(joined.as_str())
            },
        }
    }

    /// Joins several relative parts onto this path and normalizes the result.
    pub fn join_all(&self, parts: &[&str]) -> (r: Result<Self, PathError>)
        ensures
            match join_all_spec(self@, parts@.map_values(|p: &str| p@)) {
                Ok(t) => r matches Ok(np) && np@ == t,
                Err(e) => r == Err::<NeutralPath, PathError>(e),
            },
    {
        let ghost ps = parts@.map_values(|p: &str| p@);
        let mut joined = String::from_str(self.0.as_str());
        let mut i: usize = 0;
        proof {
            assert(ps.take(0) =~= Seq::<Seq<char>>::empty());
        }
        while i < parts.len()
            invariant
                ps == parts@.map_values(|p: &str| p@),
                i <= parts.len(),
                first_absolute(ps.take(i as int)) is None,
                joined@ == concat_parts(self@, ps.take(i as int)),
            decreases parts.len() - i,
        {
            proof {
                reveal_strlit("/");
                lemma_first_absolute_push(ps.take(i as int), ps[i as int]);
                assert(ps.take(i as int).push(ps[i as int]) =~= ps.take(i as int + 1));
            }
            let part = parts[i];
            match Self::check_if_absolute(part) {
                Err(e) => {
                    proof {
                        lemma_first_absolute_prefix(ps.take(i as int + 1), ps);
                    }
                    return Err(e);
                },
                Ok(_) => {},
            }
            joined.append("/");
            joined.append(part);
            proof {
                assert(ps.take(i as int + 1).drop_last() =~= ps.take(i as int));
            }
            i = i + 1;
        }
        proof {
            assert(ps.take(parts.len() as int) =~= ps);
        }
        NeutralPath::from_path(joined.as_str())
    }

    /// The parent: this path joined with `..`.
    pub fn parent(&self) -> (r: Self)
        ensures
            join_spec(self@, seq!['.', '.']) == Ok::<Seq<char>, PathError>(r@),
    {
        proof {
            use_type_invariant(self);
            reveal_strlit("..");
            assert(".."@ =~= seq!['.', '.']);
            lemma_join_dotdot_ok(self@);
        }
        match self.join("..") {
            Ok(p) => p,
            Err(_) => unreached(),
        }
    }

    /// The relative path that leads from this path to `to`: `..` for each
    /// component of this path after the common prefix, then the rest of `to`.
    #[verifier::rlimit(40)]
    pub fn get_relative_path_to(&self, to: &NeutralPath) -> (r: Option<NeutralPath>)
        ensures
            r matches Some(p) && p@ == relative_spec(self@, to@),
    {
        proof {
            use_type_invariant(self);
            use_type_invariant(to);
            reveal_strlit("..");
            reveal_strlit("/");
            reveal_strlit(".");
        }
        let fc = chars_of(self.0.as_str());
        let tc = chars_of(to.0.as_str());
        let fr = split_slash_ranges(&fc);
        let tr = split_slash_ranges(&tc);
        let ghost f = ranges_view(fc@, fr@);
        let ghost t = ranges_view(tc@, tr@);
        let max_common = if fr.len() < tr.len() {
            fr.len()
        } else {
            tr.len()
        };
        let mut c: usize = 0;
        while c < max_common && ranges_equal(&fc, fr[c].0, fr[c].1, &tc, tr[c].0, tr[c].1)
            invariant
                ranges_valid(fc@.len() as int, fr@),
                ranges_valid(tc@.len() as int, tr@),
                f == ranges_view(fc@, fr@),
                t == ranges_view(tc@, tr@),
                max_common <= fr.len(),
                max_common <= tr.len(),
                max_common == fr.len() || max_common == tr.len(),
                c <= max_common,
                forall|j: int| 0 <= j < c ==> f[j] == t[j],
            decreases max_common - c,
        {
            c = c + 1;
        }
        proof {
            lemma_common_prefix_at(f, t, c as int);
        }
        let ghost rel = relative_parts(f, t);
        let m = fr.len() - c;
        let tl = tr.len();
        proof {
            assert(rel.len() == m + (tl - c));
            assert forall|k: int| 0 <= k < m implies rel[k] == seq!['.', '.'] by {}
            assert forall|k: int| m <= k < rel.len() implies rel[k] == t[c + k - m] by {}
        }
        if m == 0 && c == tl {
            proof {
                assert(rel =~= Seq::<Seq<char>>::empty());
                lemma_render_inv(rel);
                assert("."@ =~= seq!['.']);
            }
            return Some(NeutralPath(String::from_str(".")));
        }
        let mut out = String::new();
        let mut k: usize = 0;
        proof {
            assert(rel.take(0) =~= Seq::<Seq<char>>::empty());
        }
        while k < m
            invariant
                c <= tl,
                rel.len() == m + (tl - c),
                forall|j: int| 0 <= j < m ==> rel[j] == seq!['.', '.'],
                k <= m,
                out@ == join_slash(rel.take(k as int)),
            decreases m - k,
        {
            proof {
                reveal_strlit("/");
                reveal_strlit("..");
                assert(rel.take(k as int + 1).drop_last() =~= rel.take(k as int));
                assert(rel.take(k as int + 1).last() == rel[k as int]);
                if k == 0 {
                    assert(rel.take(1) =~= seq![rel[0]]);
                }
            }
            if k > 0 {
                out.append("/");
            } else {
                assert(out@ =~= Seq::<char>::empty());
            }
            out.append("..");
            assert(".."@ =~= seq!['.', '.']);
            k = k + 1;
        }
        let mut j: usize = c;
        while j < tl
            invariant
                ranges_valid(tc@.len() as int, tr@),
                t == ranges_view(tc@, tr@),
                tc@ == to.0@,
                tl == tr.len(),
                rel.len() == m + (tl - c),
                forall|i: int| m <= i < rel.len() ==> rel[i] == t[c + i - m],
                c <= j <= tl,
                out@ == join_slash(rel.take(m + (j - c))),
            decreases tl - j,
        {
            let ghost k = m + (j - c);
            proof {
                reveal_strlit("/");
                assert(rel.take(k + 1).drop_last() =~= rel.take(k));
                assert(rel.take(k + 1).last() == rel[k]);
                if k == 0 {
                    assert(rel.take(1) =~= seq![rel[0]]);
                }
            }
            if m > 0 || j > c {
                out.append("/");
            } else {
                assert(out@ =~= Seq::<char>::empty());
            }
            let (lo, hi) = tr[j];
            let piece = to.0.as_str().substring_char(lo, hi);
            out.append(piece);
            j = j + 1;
        }
        let ghost total = rel.len();
        proof {
            assert(rel.take(total as int) =~= rel);
            let ps = split_parts(to@, false);
            assert forall|j: int| 0 <= j < rel.len() implies component_ok(#[trigger] rel[j]) by {
                if j < m {
                    lemma_dotdot_ok();
                } else {
                    assert(rel[j] == ps[c + j - m]);
                }
            }
            lemma_render_inv(rel);
        }
        Some(NeutralPath(out))
    }

    /// Whether this path lies in `dir`: the relative path from `dir` to this path does
    /// not begin with `..` (a directory is in itself).
    pub fn is_in_dir(&self, dir: &NeutralPath) -> (r: bool)
        ensures
            r == !starts_with_dotdot(relative_spec(dir@, self@)),
    {
        match dir.get_relative_path_to(self) {
            Some(rel) => {
                let c = chars_of(rel.0.as_str());
                !(c.len() >= 2 && c[0] == '.' && c[1] == '.')
            },
            None => false,
        }
    }

    /// Whether the path begins with a `..` component, climbing out of where it starts.
    pub(crate) fn climbs_out(&self) -> (r: bool)
        ensures
            r == leads_up(self@),
    {
        let p = chars_of(self.0.as_str());
        assert(p@.skip(0) =~= p@);
        leads_up_from(&p, 0)
    }

    /// The last component, unless it is `.` or `..`.
    pub fn filename(&self) -> (r: Option<&str>)
        ensures
            match filename_spec(self@) {
                None => r is None,
                Some(f) => r matches Some(x) && x@ == f,
            },
    {
        let chars = chars_of(self.0.as_str());
        let n = chars.len();
        let k = last_index_exec(&chars, '/');
        let f = self.0.as_str().substring_char(k, n);
        let lo = k;
        if range_is_dot(&chars, lo, n) || range_is_dotdot(&chars, lo, n) {
            None
        } else {
            Some(f)
        }
    }

    /// The text after the last `.` of the file name.
    pub fn extname(&self) -> (r: Option<&str>)
        ensures
            match extname_spec(self@) {
                None => r is None,
                Some(e) => r matches Some(x) && x@ == e,
            },
    {
        match self.filename() {
            None => None,
            Some(f) => {
                let chars = chars_of(f);
                let n = chars.len();
                let k = last_index_exec(&chars, '.');
                if k == 0 {
                    None
                } else {
                    Some(f.substring_char(k, n))
                }
            },
        }
    }
}

/// Whether `chars[lo..]` begins with a `..` component.
fn leads_up_from(chars: &Vec<char>, lo: usize) -> (r: bool)
    requires
        lo <= chars@.len(),
    ensures
        r == leads_up(chars@.skip(lo as int)),
{
    let n = chars.len();
    let ghost t = chars@.skip(lo as int);
    if n - lo < 2 || chars[lo] != '.' || chars[lo + 1] != '.' {
        assert(t.len() < 2 || t[0] != '.' || t[1] != '.');
        return false;
    }
    if n - lo == 2 {
        assert(t =~= seq!['.', '.']);
        return true;
    }
    assert(t != seq!['.', '.']);
    chars[lo + 2] == '/'
}

/// The `/`-separated parts of `chars`, as ranges.
#[verifier::rlimit(40)]
#[verifier::spinoff_prover]
fn split_slash_ranges(chars: &Vec<char>) -> (v: Vec<(usize, usize)>)
    ensures
        ranges_valid(chars@.len() as int, v@),
        ranges_view(chars@, v@) == split_parts(chars@, false),
{
    let n = chars.len();
    let ghost s = chars@;
    let mut v: Vec<(usize, usize)> = Vec::new();
    let mut start: usize = 0;
    let mut i: usize = 0;
    proof {
        assert(s.take(0) =~= Seq::<char>::empty());
        assert(s.subrange(0, 0) =~= Seq::<char>::empty());
        assert(split_parts(s.take(0), false).drop_last() =~= ranges_view(s, v@));
    }
    while i < n
        invariant
            n == s.len(),
            s == chars@,
            start <= i <= n,
            ranges_valid(n as int, v@),
            split_parts(s.take(i as int), false).len() >= 1,
            split_parts(s.take(i as int), false).last() == s.subrange(start as int, i as int),
            split_parts(s.take(i as int), false).drop_last() == ranges_view(s, v@),
        decreases n - i,
    {
        let ghost parts = split_parts(s.take(i as int), false);
        proof {
            lemma_split_step(s, i as int, false);
        }
        if chars[i] == '/' {
            let ghost old_v = v@;
            v.push((start, i));
            proof {
                assert forall|k: int| 0 <= k < v@.len() implies #[trigger] v@[k].0 <= v@[k].1 && v@[k].1 <= n by {
                    if k < old_v.len() {
                        assert(v@[k] == old_v[k]);
                    }
                }
                assert(ranges_valid(n as int, v@));
                assert(ranges_view(s, v@) =~= ranges_view(s, old_v).push(s.subrange(start as int, i as int)));
                assert(parts.drop_last().push(parts.last()) =~= parts);
            }
            start = i + 1;
            proof {
                assert(s.subrange(start as int, (i + 1) as int) =~= Seq::<char>::empty());
            }
        } else {
            proof {
                assert(s.subrange(start as int, i as int).push(s[i as int]) =~= s.subrange(
                    start as int,
                    (i + 1) as int,
                ));
            }
        }
        i = i + 1;
    }
    proof {
        lemma_take_full(s);
    }
    let ghost old_v = v@;
    v.push((start, n));
    proof {
        let parts = split_parts(s, false);
        assert(ranges_view(s, v@) =~= ranges_view(s, old_v).push(s.subrange(start as int, n as int)));
        assert(parts.drop_last().push(parts.last()) =~= parts);
    }
    v
}

/// Whether two character ranges hold the same text.
fn ranges_equal(a: &Vec<char>, alo: usize, ahi: usize, b: &Vec<char>, blo: usize, bhi: usize) -> (r:
    bool)
    requires
        alo <= ahi <= a@.len(),
        blo <= bhi <= b@.len(),
    ensures
        r == (a@.subrange(alo as int, ahi as int) == b@.subrange(blo as int, bhi as int)),
{
    let ghost x = a@.subrange(alo as int, ahi as int);
    let ghost y = b@.subrange(blo as int, bhi as int);
    if ahi - alo != bhi - blo {
        assert(x.len() != y.len());
        return false;
    }
    let len = ahi - alo;
    let mut k: usize = 0;
    while k < len
        invariant
            len == ahi - alo == bhi - blo,
            alo <= ahi <= a@.len(),
            blo <= bhi <= b@.len(),
            x == a@.subrange(alo as int, ahi as int),
            y == b@.subrange(blo as int, bhi as int),
            k <= len,
            forall|j: int| 0 <= j < k ==> x[j] == y[j],
        decreases len - k,
    {
        if a[alo + k] != b[blo + k] {
            assert(x[k as int] != y[k as int]);
            return false;
        }
        k = k + 1;
    }
    assert(x =~= y);
    true
}

impl NeutralPath {
    fn checked_normalize(path: &str) -> (r: Result<NeutralPath, PathError>)
        ensures
            match normalize_spec(path@, true) {
                Ok(t) => r matches Ok(np) && np@ == t,
                Err(e) => r == Err::<NeutralPath, PathError>(e),
            },
    {
        internal_normalize(path, true)
    }
}

} // verus!
