//! The mathematical model of neutral paths: splitting, component folding,
//! rendering and the per-component name checks.
use vstd::prelude::*;

use crate::path::PathError;

verus! {

/// A path separator: `/`, or also `\` when `both` is set.
pub open spec fn is_separator(c: char, both: bool) -> bool {
    c == '/' || (both && c == '\\')
}

/// Splits `s` at every separator, keeping empty parts (like `str::split`).
pub open spec fn split_parts(s: Seq<char>, both: bool) -> Seq<Seq<char>>
    decreases s.len(),
{
    if s.len() == 0 {
        seq![Seq::<char>::empty()]
    } else {
        let r = split_parts(s.drop_last(), both);
        let c = s.last();
        if is_separator(c, both) {
            r.push(Seq::<char>::empty())
        } else {
            r.update(r.len() - 1, r.last().push(c))
        }
    }
}

pub open spec fn is_dot(p: Seq<char>) -> bool {
    p == seq!['.']
}

pub open spec fn is_dotdot(p: Seq<char>) -> bool {
    p == seq!['.', '.']
}

/// A component that names a file or a directory (not empty, `.` or `..`).
pub open spec fn is_named(p: Seq<char>) -> bool {
    p.len() > 0 && !is_dot(p) && !is_dotdot(p)
}

/// One step of normalisation: skip empty and `.` parts, let `..` cancel the
/// last named component, and keep everything else.
pub open spec fn push_component(st: Seq<Seq<char>>, p: Seq<char>) -> Seq<Seq<char>> {
    if p.len() == 0 || is_dot(p) {
        st
    } else if is_dotdot(p) {
        if st.len() > 0 && !is_dotdot(st.last()) {
            st.drop_last()
        } else {
            st.push(p)
        }
    } else {
        st.push(p)
    }
}

/// Folds `push_component` over `parts`, starting from `st`.
pub open spec fn fold_from(st: Seq<Seq<char>>, parts: Seq<Seq<char>>) -> Seq<Seq<char>>
    decreases parts.len(),
{
    if parts.len() == 0 {
        st
    } else {
        push_component(fold_from(st, parts.drop_last()), parts.last())
    }
}

pub open spec fn fold_components(parts: Seq<Seq<char>>) -> Seq<Seq<char>> {
    fold_from(Seq::empty(), parts)
}

/// Like `fold_components`, but every named component must pass the name
/// checks; the first one that does not gives the error.
pub open spec fn fold_checked(parts: Seq<Seq<char>>) -> Result<Seq<Seq<char>>, PathError>
    decreases parts.len(),
{
    if parts.len() == 0 {
        Ok(Seq::empty())
    } else {
        match fold_checked(parts.drop_last()) {
            Err(e) => Err(e),
            Ok(st) => {
                let p = parts.last();
                if is_named(p) {
                    match name_check(p) {
                        Err(e) => Err(e),
                        Ok(_) => Ok(st.push(p)),
                    }
                } else {
                    Ok(push_component(st, p))
                }
            },
        }
    }
}

/// Joins components with `/`.
pub open spec fn join_slash(parts: Seq<Seq<char>>) -> Seq<char>
    decreases parts.len(),
{
    if parts.len() == 0 {
        Seq::empty()
    } else if parts.len() == 1 {
        parts[0]
    } else {
        join_slash(parts.drop_last()) + seq!['/'] + parts.last()
    }
}

/// The text of a folded component list: `.` when nothing is left.
pub open spec fn render(comps: Seq<Seq<char>>) -> Seq<char> {
    if comps.len() == 0 {
        seq!['.']
    } else {
        join_slash(comps)
    }
}

/// Normalisation of a path text, with or without the name checks.
pub open spec fn normalize_spec(s: Seq<char>, check: bool) -> Result<Seq<char>, PathError> {
    if check {
        match fold_checked(split_parts(s, true)) {
            Ok(c) => Ok(render(c)),
            Err(e) => Err(e),
        }
    } else {
        Ok(render(fold_components(split_parts(s, true))))
    }
}

pub open spec fn is_ascii_alpha(c: char) -> bool {
    ('a' <= c && c <= 'z') || ('A' <= c && c <= 'Z')
}

/// A drive prefix: a `:` preceded only by ASCII letters (possibly none).
pub open spec fn has_drive_prefix(s: Seq<char>) -> bool {
    exists|i: int|
        0 <= i < s.len() && s[i] == ':' && (forall|j: int| 0 <= j < i ==> is_ascii_alpha(
            #[trigger] s[j],
        ))
}

/// Whether `s` is an absolute path (Unix root, UNC/Windows root or drive).
pub open spec fn absolute_check(s: Seq<char>) -> Result<(), PathError> {
    if s.len() > 0 && (s[0] == '/' || s[0] == '\\') {
        Err(PathError::PathIsAbsolute())
    } else if has_drive_prefix(s) {
        Err(PathError::PathIsAbsolute())
    } else {
        Ok(())
    }
}

/// Index of the first `c` in `s`, or `s.len()` when there is none.
pub open spec fn first_index(s: Seq<char>, c: char) -> nat
    decreases s.len(),
{
    if s.len() == 0 {
        0
    } else if s[0] == c {
        0
    } else {
        1 + first_index(s.drop_first(), c)
    }
}

/// The part of a file name before its first `.`.
pub open spec fn stem(s: Seq<char>) -> Seq<char> {
    s.take(first_index(s, '.') as int)
}

pub open spec fn ascii_upper(c: char) -> char {
    if 'a' <= c && c <= 'z' {
        ((c as u32) - 32) as char
    } else {
        c
    }
}

pub open spec fn upper_seq(s: Seq<char>) -> Seq<char> {
    Seq::new(s.len(), |i: int| ascii_upper(s[i]))
}

/// Device names that Windows reserves (`CON`, `COM1`, `LPT¹`, ...), upper case.
pub open spec fn is_reserved_upper(u: Seq<char>) -> bool {
    ||| u == seq!['C', 'O', 'N']
    ||| u == seq!['P', 'R', 'N']
    ||| u == seq!['A', 'U', 'X']
    ||| u == seq!['N', 'U', 'L']
    ||| u.len() == 4 && (u.take(3) == seq!['C', 'O', 'M'] || u.take(3) == seq!['L', 'P', 'T']) && (
    ('1' <= u[3] && u[3] <= '9') || u[3] == '\u{b9}' || u[3] == '\u{b2}' || u[3] == '\u{b3}')
}

pub open spec fn ends_with(s: Seq<char>, c: char) -> bool {
    s.len() > 0 && s.last() == c
}

/// The checks that a file or directory name must pass, in order.
pub open spec fn name_check(p: Seq<char>) -> Result<(), PathError> {
    if p.contains('\0') {
        Err(PathError::InvalidCharacter("\\0"))
    } else if p.contains('<') {
        Err(PathError::InvalidCharacter("<"))
    } else if p.contains('>') {
        Err(PathError::InvalidCharacter(">"))
    } else if p.contains(':') {
        Err(PathError::InvalidCharacter(":"))
    } else if p.contains('"') {
        Err(PathError::InvalidCharacter("\""))
    } else if p.contains('|') {
        Err(PathError::InvalidCharacter("|"))
    } else if p.contains('?') {
        Err(PathError::InvalidCharacter("?"))
    } else if p.contains('*') {
        Err(PathError::InvalidCharacter("*"))
    } else if ends_with(p, ' ') {
        Err(PathError::InvalidFormat("space ` ` at the end"))
    } else if ends_with(p, '.') {
        Err(PathError::InvalidFormat("dot `.` at the end"))
    } else if is_reserved_upper(upper_seq(stem(p))) {
        Err(PathError::InvalidCharacter("Windows reserved name"))
    } else if p.contains('\'') {
        Err(PathError::InvalidCharacter("\'"))
    } else if p.contains('`') {
        Err(PathError::InvalidCharacter("`"))
    } else if p.contains('$') {
        Err(PathError::InvalidCharacter("$"))
    } else {
        Ok(())
    }
}

/// What `NeutralPath::from_path` gives for a text.
pub open spec fn from_path_spec(s: Seq<char>) -> Result<Seq<char>, PathError> {
    match absolute_check(s) {
        Err(e) => Err(e),
        Ok(_) => normalize_spec(s, true),
    }
}

/// A component that a neutral path may hold.
pub open spec fn component_ok(p: Seq<char>) -> bool {
    &&& p.len() > 0
    &&& !p.contains('/')
    &&& !p.contains('\\')
    &&& (is_dot(p) || is_dotdot(p) || name_check(p) is Ok)
}

/// Every `/`-separated component of `s` is acceptable.
pub open spec fn neutral_inv(s: Seq<char>) -> bool {
    forall|i: int|
        0 <= i < split_parts(s, false).len() ==> component_ok(#[trigger] split_parts(s, false)[i])
}

/// The relative path from a list of components to another: `..` for each
/// component of `from` after the common prefix, then the rest of `to`.
pub open spec fn common_prefix_len(a: Seq<Seq<char>>, b: Seq<Seq<char>>) -> nat
    decreases a.len(),
{
    if a.len() == 0 || b.len() == 0 || a[0] != b[0] {
        0
    } else {
        1 + common_prefix_len(a.drop_first(), b.drop_first())
    }
}

pub open spec fn relative_parts(from: Seq<Seq<char>>, to: Seq<Seq<char>>) -> Seq<Seq<char>> {
    let c = common_prefix_len(from, to) as int;
    Seq::new((from.len() - c) as nat, |i: int| seq!['.', '.']) + to.skip(c)
}

pub open spec fn relative_spec(from: Seq<char>, to: Seq<char>) -> Seq<char> {
    render(relative_parts(split_parts(from, false), split_parts(to, false)))
}

pub open spec fn starts_with_dotdot(s: Seq<char>) -> bool {
    s.len() >= 2 && s[0] == '.' && s[1] == '.'
}

/// Index of the last `c` in `s`, or `-1` when there is none.
pub open spec fn last_index(s: Seq<char>, c: char) -> int
    decreases s.len(),
{
    if s.len() == 0 {
        -1
    } else if s.last() == c {
        s.len() - 1
    } else {
        last_index(s.drop_last(), c)
    }
}

/// The text after the last `c` (all of `s` when there is none).
pub open spec fn after_last(s: Seq<char>, c: char) -> Seq<char> {
    s.subrange(last_index(s, c) + 1, s.len() as int)
}

/// The file name: the text after the last `/`, unless it is `.` or `..`.
pub open spec fn filename_spec(s: Seq<char>) -> Option<Seq<char>> {
    let f = after_last(s, '/');
    if is_dot(f) || is_dotdot(f) {
        None
    } else {
        Some(f)
    }
}

/// The text after the last `.` of the file name, if the name holds a `.`.
pub open spec fn extname_spec(s: Seq<char>) -> Option<Seq<char>> {
    match filename_spec(s) {
        None => None,
        Some(f) => if last_index(f, '.') >= 0 {
            Some(after_last(f, '.'))
        } else {
            None
        },
    }
}

/// What joining `part` onto a path gives.
pub open spec fn join_spec(base: Seq<char>, part: Seq<char>) -> Result<Seq<char>, PathError> {
    match absolute_check(part) {
        Err(e) => Err(e),
        Ok(_) => from_path_spec(base + seq!['/'] + part),
    }
}

/// The first absolute part, if any.
pub open spec fn first_absolute(parts: Seq<Seq<char>>) -> Option<PathError>
    decreases parts.len(),
{
    if parts.len() == 0 {
        None
    } else {
        match absolute_check(parts[0]) {
            Err(e) => Some(e),
            Ok(_) => first_absolute(parts.drop_first()),
        }
    }
}

/// `base` followed by `/` and each part.
pub open spec fn concat_parts(base: Seq<char>, parts: Seq<Seq<char>>) -> Seq<char>
    decreases parts.len(),
{
    if parts.len() == 0 {
        base
    } else {
        concat_parts(base, parts.drop_last()) + seq!['/'] + parts.last()
    }
}

/// What joining several parts onto a path gives.
pub open spec fn join_all_spec(base: Seq<char>, parts: Seq<Seq<char>>) -> Result<
    Seq<char>,
    PathError,
> {
    match first_absolute(parts) {
        Some(e) => Err(e),
        None => from_path_spec(concat_parts(base, parts)),
    }
}

/// The path begins with a `..` component: it climbs out of where it starts.
pub open spec fn leads_up(s: Seq<char>) -> bool {
    s == seq!['.', '.'] || (s.len() >= 3 && s[0] == '.' && s[1] == '.' && s[2] == '/')
}

} // verus!
