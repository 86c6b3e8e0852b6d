//! Facts about the path model.
use vstd::prelude::*;

use crate::path::spec::{
    absolute_check, common_prefix_len, is_ascii_alpha, from_path_spec, has_drive_prefix, last_index,
    first_absolute, component_ok, fold_checked, fold_components, fold_from, is_dot, is_dotdot, is_named,
    is_separator, join_slash, name_check, neutral_inv, push_component, render, split_parts,
};

verus! {

pub proof fn lemma_split_nonempty(s: Seq<char>, both: bool)
    ensures
        split_parts(s, both).len() >= 1,
    decreases s.len(),
{
    if s.len() > 0 {
        lemma_split_nonempty(s.drop_last(), both);
    }
}

/// Splitting `s` one character further.
pub proof fn lemma_split_step(s: Seq<char>, i: int, both: bool)
    requires
        0 <= i < s.len(),
    ensures
        split_parts(s.take(i), both).len() >= 1,
        is_separator(s[i], both) ==> split_parts(s.take(i + 1), both) == split_parts(
            s.take(i),
            both,
        ).push(Seq::<char>::empty()),
        !is_separator(s[i], both) ==> split_parts(s.take(i + 1), both) == split_parts(
            s.take(i),
            both,
        ).update(
            split_parts(s.take(i), both).len() - 1,
            split_parts(s.take(i), both).last().push(s[i]),
        ),
        split_parts(s.take(i + 1), both).drop_last() == (if is_separator(s[i], both) {
            split_parts(s.take(i), both)
        } else {
            split_parts(s.take(i), both).drop_last()
        }),
{
    lemma_split_nonempty(s.take(i), both);
    assert(s.take(i + 1).drop_last() =~= s.take(i));
    assert(s.take(i + 1).last() == s[i]);
    let r = split_parts(s.take(i), both);
    if !is_separator(s[i], both) {
        assert(r.update(r.len() - 1, r.last().push(s[i])).drop_last() =~= r.drop_last());
    } else {
        assert(r.push(Seq::<char>::empty()).drop_last() =~= r);
    }
}

/// The last part of the split of `s.take(i)` is the text after the last
/// separator before `i`.
pub proof fn lemma_split_last(s: Seq<char>, start: int, i: int, both: bool)
    requires
        0 <= start <= i <= s.len(),
        start == 0 || is_separator(s[start - 1], both),
        forall|j: int| start <= j < i ==> !is_separator(#[trigger] s[j], both),
    ensures
        split_parts(s.take(i), both).len() >= 1,
        split_parts(s.take(i), both).last() == s.subrange(start, i),
    decreases i - start,
{
    lemma_split_nonempty(s.take(i), both);
    if i == start {
        if start == 0 {
            assert(s.take(0) =~= Seq::<char>::empty());
        } else {
            lemma_split_step(s, start - 1, both);
        }
        assert(s.subrange(start, i) =~= Seq::<char>::empty());
    } else {
        lemma_split_last(s, start, i - 1, both);
        lemma_split_step(s, i - 1, both);
        assert(s.subrange(start, i - 1).push(s[i - 1]) =~= s.subrange(start, i));
    }
}

pub proof fn lemma_take_full<A>(s: Seq<A>)
    ensures
        s.take(s.len() as int) == s,
{
    assert(s.take(s.len() as int) =~= s);
}


/// The completed parts of a prefix are a prefix of the parts of the whole.
pub proof fn lemma_split_prefix(s: Seq<char>, k: int, both: bool)
    requires
        0 <= k <= s.len(),
    ensures
        split_parts(s.take(k), both).len() >= 1,
        split_parts(s.take(k), both).drop_last().len() < split_parts(s, both).len(),
        split_parts(s, both).take(split_parts(s.take(k), both).drop_last().len() as int)
            == split_parts(s.take(k), both).drop_last(),
    decreases s.len() - k,
{
    lemma_split_nonempty(s.take(k), both);
    if k == s.len() {
        lemma_take_full(s);
        let b = split_parts(s, both);
        assert(b.take(b.len() - 1) =~= b.drop_last());
    } else {
        lemma_split_prefix(s, k + 1, both);
        lemma_split_step(s, k, both);
        let a = split_parts(s.take(k), both).drop_last();
        let a1 = split_parts(s.take(k + 1), both).drop_last();
        let b = split_parts(s, both);
        assert(a1.take(a.len() as int) =~= a);
        assert(b.take(a.len() as int) =~= b.take(a1.len() as int).take(a.len() as int));
    }
}

/// An error of the checked fold on a prefix is the error on the whole.
pub proof fn lemma_fold_checked_err_prefix(a: Seq<Seq<char>>, b: Seq<Seq<char>>)
    requires
        a.len() <= b.len(),
        b.take(a.len() as int) == a,
        fold_checked(a) is Err,
    ensures
        fold_checked(b) == fold_checked(a),
    decreases b.len(),
{
    if b.len() == a.len() {
        assert(b =~= a);
    } else {
        assert(b.drop_last().take(a.len() as int) =~= a);
        lemma_fold_checked_err_prefix(a, b.drop_last());
    }
}

/// An error found while normalising `s.take(k)` is the error for `s`.
pub proof fn lemma_fold_checked_prefix_err(s: Seq<char>, k: int)
    requires
        0 <= k <= s.len(),
        fold_checked(split_parts(s.take(k), true).drop_last()) is Err,
    ensures
        fold_checked(split_parts(s, true)) == fold_checked(
            split_parts(s.take(k), true).drop_last(),
        ),
{
    lemma_split_prefix(s, k, true);
    lemma_fold_checked_err_prefix(split_parts(s.take(k), true).drop_last(), split_parts(s, true));
}


/// `p` holds no separator.
pub open spec fn no_sep(p: Seq<char>, both: bool) -> bool {
    forall|i: int| 0 <= i < p.len() ==> !is_separator(#[trigger] p[i], both)
}

/// Appending a separator-free text extends the last part.
pub proof fn lemma_split_append_plain(x: Seq<char>, b: Seq<char>, both: bool)
    requires
        no_sep(b, both),
    ensures
        split_parts(x + b, both).len() == split_parts(x, both).len(),
        split_parts(x + b, both) == split_parts(x, both).update(
            split_parts(x, both).len() - 1,
            split_parts(x, both).last() + b,
        ),
    decreases b.len(),
{
    lemma_split_nonempty(x, both);
    let r = split_parts(x, both);
    if b.len() == 0 {
        assert(x + b =~= x);
        assert(r.last() + b =~= r.last());
        assert(r.update(r.len() - 1, r.last()) =~= r);
    } else {
        let b0 = b.drop_last();
        lemma_split_append_plain(x, b0, both);
        assert((x + b).drop_last() =~= x + b0);
        assert((x + b).last() == b.last());
        assert(!is_separator(b[b.len() - 1], both));
        assert((r.last() + b0).push(b.last()) =~= r.last() + b);
        assert(r.update(r.len() - 1, r.last() + b0).update(r.len() - 1, r.last() + b)
            =~= r.update(r.len() - 1, r.last() + b));
    }
}

/// Splitting a text made by joining separator-free, non-empty-list parts.
pub proof fn lemma_split_join(comps: Seq<Seq<char>>, both: bool)
    requires
        comps.len() >= 1,
        forall|i: int| 0 <= i < comps.len() ==> no_sep(#[trigger] comps[i], both),
    ensures
        split_parts(join_slash(comps), both) == comps,
    decreases comps.len(),
{
    let e = Seq::<char>::empty();
    if comps.len() == 1 {
        assert(no_sep(comps[0], both));
        lemma_split_append_plain(e, comps[0], both);
        assert(e + comps[0] =~= comps[0]);
        assert(split_parts(e, both) == seq![e]);
        assert(e + comps[0] =~= comps[0]);
        assert(seq![e].update(0, e + comps[0]) =~= comps);
    } else {
        let d = comps.drop_last();
        assert forall|i: int| 0 <= i < d.len() implies no_sep(#[trigger] d[i], both) by {
            assert(d[i] == comps[i]);
        }
        lemma_split_join(d, both);
        let j = join_slash(d);
        let js = j + seq!['/'];
        assert(js.drop_last() =~= j);
        assert(js.last() == '/');
        assert(split_parts(js, both) == d.push(e));
        assert(no_sep(comps.last(), both)) by {
            assert(comps.last() == comps[comps.len() - 1]);
        }
        lemma_split_append_plain(js, comps.last(), both);
        assert(d.push(e).update(d.len() as int, e + comps.last()) =~= comps);
    }
}

/// Every part of a split is free of separators.
pub proof fn lemma_split_parts_no_sep(s: Seq<char>, both: bool)
    ensures
        forall|i: int|
            0 <= i < split_parts(s, both).len() ==> no_sep(#[trigger] split_parts(s, both)[i], both),
    decreases s.len(),
{
    if s.len() > 0 {
        lemma_split_parts_no_sep(s.drop_last(), both);
        lemma_split_nonempty(s.drop_last(), both);
        let r = split_parts(s.drop_last(), both);
        let c = s.last();
        if !is_separator(c, both) {
            let l = r.last().push(c);
            assert(no_sep(r[r.len() - 1], both));
            assert(no_sep(l, both)) by {
                assert forall|k: int| 0 <= k < l.len() implies !is_separator(l[k], both) by {
                    if k < r.last().len() {
                        assert(l[k] == r[r.len() - 1][k]);
                    }
                }
            }
        }
    }
}

/// A character that no part holds is not in the text.
pub proof fn lemma_parts_lack_char(s: Seq<char>, c: char, both: bool)
    requires
        !is_separator(c, both),
        forall|i: int|
            0 <= i < split_parts(s, both).len() ==> !(#[trigger] split_parts(s, both)[i]).contains(
                c,
            ),
    ensures
        !s.contains(c),
    decreases s.len(),
{
    if s.len() > 0 {
        lemma_split_nonempty(s.drop_last(), both);
        let r = split_parts(s.drop_last(), both);
        let x = s.last();
        assert forall|i: int| 0 <= i < r.len() implies !(#[trigger] r[i]).contains(c) by {
            if !is_separator(x, both) && i == r.len() - 1 {
                let l = r.last().push(x);
                assert(split_parts(s, both)[i] == l);
                if r[i].contains(c) {
                    let k = choose|k: int| 0 <= k < r[i].len() && r[i][k] == c;
                    assert(l[k] == c);
                }
            } else {
                assert(split_parts(s, both)[i] == r[i]);
            }
        }
        lemma_parts_lack_char(s.drop_last(), c, both);
        if x == c {
            let i = split_parts(s, both).len() - 1;
            let l = r.last().push(x);
            assert(split_parts(s, both)[i] == l);
            assert(l[l.len() - 1] == c);
        }
        if s.contains(c) {
            let k = choose|k: int| 0 <= k < s.len() && s[k] == c;
            if k < s.len() - 1 {
                assert(s.drop_last()[k] == c);
            }
        }
    }
}

/// Without `\`, splitting at both separators is splitting at `/`.
pub proof fn lemma_split_no_backslash(s: Seq<char>)
    requires
        !s.contains('\\'),
    ensures
        split_parts(s, true) == split_parts(s, false),
    decreases s.len(),
{
    if s.len() > 0 {
        assert(!s.drop_last().contains('\\')) by {
            if s.drop_last().contains('\\') {
                let k = choose|k: int| 0 <= k < s.drop_last().len() && s.drop_last()[k] == '\\';
                assert(s[k] == '\\');
            }
        }
        lemma_split_no_backslash(s.drop_last());
        assert(s[s.len() - 1] != '\\');
    }
}

/// The first part of a text that starts with a separator is empty.
pub proof fn lemma_split_leading_sep(s: Seq<char>, both: bool)
    requires
        s.len() > 0,
        is_separator(s[0], both),
    ensures
        split_parts(s, both).len() >= 2,
        split_parts(s, both)[0].len() == 0,
    decreases s.len(),
{
    if s.len() == 1 {
        assert(s.drop_last() =~= Seq::<char>::empty());
    } else {
        lemma_split_leading_sep(s.drop_last(), both);
    }
}

/// Components that a folded stack may hold.
pub open spec fn stack_ok(st: Seq<Seq<char>>) -> bool {
    forall|i: int| 0 <= i < st.len() ==> component_ok(#[trigger] st[i]) && !is_dot(st[i])
}

/// Parts that folding keeps acceptable: each is empty, `.`, or acceptable.
pub open spec fn parts_ok(ps: Seq<Seq<char>>) -> bool {
    forall|i: int| 0 <= i < ps.len() ==> (#[trigger] ps[i]).len() == 0 || is_dot(ps[i]) || component_ok(ps[i])
}

pub proof fn lemma_fold_from_ok(st: Seq<Seq<char>>, parts: Seq<Seq<char>>)
    requires
        stack_ok(st),
        parts_ok(parts),
    ensures
        stack_ok(fold_from(st, parts)),
    decreases parts.len(),
{
    if parts.len() > 0 {
        let d = parts.drop_last();
        assert(parts_ok(d)) by {
            assert forall|i: int| 0 <= i < d.len() implies (#[trigger] d[i]).len() == 0 || is_dot(d[i]) || component_ok(d[i]) by {
                assert(d[i] == parts[i]);
            }
        }
        lemma_fold_from_ok(st, d);
        let f = fold_from(st, d);
        let p = parts.last();
        assert(p == parts[parts.len() - 1]);
        let g = push_component(f, p);
        assert forall|i: int| 0 <= i < g.len() implies component_ok(#[trigger] g[i]) && !is_dot(g[i]) by {
            if i < f.len() {
                assert(g[i] == f[i]);
            } else {
                assert(g[i] == p);
            }
        }
    }
}

/// A successful checked fold of separator-free parts gives acceptable components.
pub proof fn lemma_fold_checked_ok(parts: Seq<Seq<char>>)
    requires
        forall|i: int| 0 <= i < parts.len() ==> no_sep(#[trigger] parts[i], true),
        fold_checked(parts) is Ok,
    ensures
        stack_ok(fold_checked(parts)->Ok_0),
    decreases parts.len(),
{
    if parts.len() > 0 {
        let d = parts.drop_last();
        assert forall|i: int| 0 <= i < d.len() implies no_sep(#[trigger] d[i], true) by {
            assert(d[i] == parts[i]);
        }
        lemma_fold_checked_ok(d);
        let f = fold_checked(d)->Ok_0;
        let p = parts.last();
        assert(no_sep(p, true)) by {
            assert(p == parts[parts.len() - 1]);
        }
        lemma_no_sep_lacks(p);
        let g = fold_checked(parts)->Ok_0;
        assert forall|i: int| 0 <= i < g.len() implies component_ok(#[trigger] g[i]) && !is_dot(g[i]) by {
            if i < f.len() {
                assert(g[i] == f[i]);
            } else {
                assert(g[i] == p);
            }
        }
    }
}

pub proof fn lemma_no_sep_lacks(p: Seq<char>)
    requires
        no_sep(p, true),
    ensures
        !p.contains('/'),
        !p.contains('\\'),
{
    if p.contains('/') {
        let k = choose|k: int| 0 <= k < p.len() && p[k] == '/';
        assert(!is_separator(p[k], true));
    }
    if p.contains('\\') {
        let k = choose|k: int| 0 <= k < p.len() && p[k] == '\\';
        assert(!is_separator(p[k], true));
    }
}

/// When every named part passes the checks, the checked fold succeeds with
/// the plain fold.
pub proof fn lemma_fold_checked_succeeds(parts: Seq<Seq<char>>)
    requires
        forall|i: int| 0 <= i < parts.len() && is_named(#[trigger] parts[i]) ==> name_check(parts[i]) is Ok,
    ensures
        fold_checked(parts) == Ok::<Seq<Seq<char>>, crate::path::PathError>(fold_components(parts)),
    decreases parts.len(),
{
    if parts.len() > 0 {
        let d = parts.drop_last();
        assert forall|i: int| 0 <= i < d.len() && is_named(#[trigger] d[i]) implies name_check(d[i]) is Ok by {
            assert(d[i] == parts[i]);
        }
        lemma_fold_checked_succeeds(d);
        assert(parts.last() == parts[parts.len() - 1]);
    }
}

/// The rendering of acceptable components satisfies the path invariant.
pub proof fn lemma_render_inv(comps: Seq<Seq<char>>)
    requires
        forall|i: int| 0 <= i < comps.len() ==> component_ok(#[trigger] comps[i]),
    ensures
        neutral_inv(render(comps)),
{
    if comps.len() == 0 {
        let d = seq!['.'];
        let e = Seq::<char>::empty();
        assert(no_sep(d, false));
        lemma_split_append_plain(e, d, false);
        assert(e + d =~= d);
        assert(split_parts(e, false) == seq![e]);
        assert(seq![e].update(0, e + d) =~= seq![d]);
        assert(component_ok(seq!['.'])) by {
            assert(!seq!['.'].contains('/')) by {
                if seq!['.'].contains('/') {
                    let k = choose|k: int| 0 <= k < 1 && seq!['.'][k] == '/';
                }
            }
            assert(!seq!['.'].contains('\\')) by {
                if seq!['.'].contains('\\') {
                    let k = choose|k: int| 0 <= k < 1 && seq!['.'][k] == '\\';
                }
            }
        }
    } else {
        assert forall|i: int| 0 <= i < comps.len() implies no_sep(#[trigger] comps[i], false) by {
            assert(component_ok(comps[i]));
            assert forall|k: int| 0 <= k < comps[i].len() implies !is_separator(#[trigger] comps[i][k], false) by {
                if comps[i][k] == '/' {
                    assert(comps[i].contains('/'));
                }
            }
        }
        lemma_split_join(comps, false);
    }
}


/// The components that normalisation keeps are acceptable ones.
pub proof fn lemma_normalized_ok(s: Seq<char>, check: bool)
    requires
        !check ==> neutral_inv(s),
        check ==> fold_checked(split_parts(s, true)) is Ok,
    ensures
        check ==> stack_ok(fold_checked(split_parts(s, true))->Ok_0),
        !check ==> stack_ok(fold_components(split_parts(s, true))),
{
    lemma_split_parts_no_sep(s, true);
    if check {
        lemma_fold_checked_ok(split_parts(s, true));
    } else {
        let ps = split_parts(s, false);
        assert forall|i: int| 0 <= i < ps.len() implies !(#[trigger] ps[i]).contains('\\') by {
            assert(component_ok(ps[i]));
        }
        lemma_parts_lack_char(s, '\\', false);
        lemma_split_no_backslash(s);
        assert(parts_ok(ps)) by {
            assert forall|i: int| 0 <= i < ps.len() implies (#[trigger] ps[i]).len() == 0 || is_dot(ps[i]) || component_ok(ps[i]) by {
                assert(component_ok(ps[i]));
            }
        }
        lemma_fold_from_ok(Seq::empty(), ps);
    }
}


/// `last_index` is the last position holding `c`.
pub proof fn lemma_last_index_at(s: Seq<char>, c: char, k: int)
    requires
        -1 <= k < s.len(),
        k >= 0 ==> s[k] == c,
        forall|j: int| k < j < s.len() ==> s[j] != c,
    ensures
        last_index(s, c) == k,
    decreases s.len(),
{
    if s.len() > 0 && k < s.len() - 1 {
        lemma_last_index_at(s.drop_last(), c, k);
    }
}

/// `common_prefix_len` is the length of the longest common prefix.
pub proof fn lemma_common_prefix_at(a: Seq<Seq<char>>, b: Seq<Seq<char>>, k: int)
    requires
        0 <= k <= a.len(),
        k <= b.len(),
        forall|j: int| 0 <= j < k ==> a[j] == b[j],
        k == a.len() || k == b.len() || a[k] != b[k],
    ensures
        common_prefix_len(a, b) == k,
    decreases k,
{
    if k > 0 {
        lemma_common_prefix_at(a.drop_first(), b.drop_first(), k - 1);
    }
}

/// Facts about the text of a neutral path.
pub proof fn lemma_inv_text(s: Seq<char>)
    requires
        neutral_inv(s),
    ensures
        s.len() > 0,
        s[0] != '/',
        s[0] != '\\',
        !s.contains('\\'),
        !s.contains(':'),
        split_parts(s, true) == split_parts(s, false),
{
    lemma_split_nonempty(s, false);
    let ps = split_parts(s, false);
    assert(component_ok(ps[0]));
    if s.len() == 0 {
        assert(ps =~= seq![Seq::<char>::empty()]);
    }
    if s[0] == '/' {
        lemma_split_leading_sep(s, false);
    }
    assert forall|i: int| 0 <= i < ps.len() implies !(#[trigger] ps[i]).contains('\\') by {
        assert(component_ok(ps[i]));
    }
    lemma_parts_lack_char(s, '\\', false);
    assert forall|i: int| 0 <= i < ps.len() implies !(#[trigger] ps[i]).contains(':') by {
        assert(component_ok(ps[i]));
        lemma_dots_lack_colon(ps[i]);
    }
    lemma_parts_lack_char(s, ':', false);
    lemma_split_no_backslash(s);
    assert(s[0] != '\\') by {
        assert(s.contains('\\') ==> false);
        if s[0] == '\\' {
            assert(s.contains('\\'));
        }
    }
}

pub proof fn lemma_dots_lack_colon(p: Seq<char>)
    requires
        is_dot(p) || is_dotdot(p) || name_check(p) is Ok,
    ensures
        !p.contains(':'),
{
    if is_dot(p) || is_dotdot(p) {
        if p.contains(':') {
            let k = choose|k: int| 0 <= k < p.len() && p[k] == ':';
            assert(p[k] == '.');
        }
    }
}

/// A text without `:` has no drive prefix.
pub proof fn lemma_no_colon_no_drive(s: Seq<char>)
    requires
        !s.contains(':'),
    ensures
        !has_drive_prefix(s),
{
    if has_drive_prefix(s) {
        let i = choose|i: int|
            0 <= i < s.len() && s[i] == ':' && (forall|j: int|
                0 <= j < i ==> is_ascii_alpha(#[trigger] s[j]));
        assert(s.contains(':'));
    }
}

/// Joining `..` onto a neutral path always succeeds.
pub proof fn lemma_join_dotdot_ok(s: Seq<char>)
    requires
        neutral_inv(s),
    ensures
        from_path_spec(s + seq!['/'] + seq!['.', '.']) is Ok,
        absolute_check(seq!['.', '.']) is Ok,
{
    let dd = seq!['.', '.'];
    let t = s + seq!['/'] + dd;
    lemma_inv_text(s);
    assert(!dd.contains(':')) by {
        if dd.contains(':') {
            let k = choose|k: int| 0 <= k < dd.len() && dd[k] == ':';
        }
    }
    lemma_no_colon_no_drive(dd);
    assert(!t.contains(':')) by {
        if t.contains(':') {
            let k = choose|k: int| 0 <= k < t.len() && t[k] == ':';
            if k < s.len() {
                assert(s[k] == ':');
                assert(s.contains(':'));
            } else if k == s.len() {
            } else {
                assert(dd[k - s.len() - 1] == ':');
                assert(dd.contains(':'));
            }
        }
    }
    lemma_no_colon_no_drive(t);
    assert(t[0] == s[0]);
    assert(!t.contains('\\')) by {
        if t.contains('\\') {
            let k = choose|k: int| 0 <= k < t.len() && t[k] == '\\';
            if k < s.len() {
                assert(s[k] == '\\');
                assert(s.contains('\\'));
            } else if k > s.len() {
                assert(dd[k - s.len() - 1] == '\\');
            }
        }
    }
    lemma_split_no_backslash(t);
    let ss = s + seq!['/'];
    assert(ss.drop_last() =~= s);
    assert(ss.last() == '/');
    lemma_split_nonempty(s, false);
    assert(split_parts(ss, false) == split_parts(s, false).push(Seq::<char>::empty()));
    assert(no_sep(dd, false));
    lemma_split_append_plain(ss, dd, false);
    assert(ss + dd =~= t);
    let ps = split_parts(s, false);
    let e = Seq::<char>::empty();
    let parts = split_parts(t, false);
    assert(parts == ps.push(e).update(ps.len() as int, e + dd));
    assert(e + dd =~= dd);
    assert(parts =~= ps.push(dd));
    assert forall|i: int| 0 <= i < parts.len() && is_named(#[trigger] parts[i]) implies name_check(parts[i]) is Ok by {
        if i < ps.len() {
            assert(parts[i] == ps[i]);
            assert(component_ok(ps[i]));
        }
    }
    lemma_fold_checked_succeeds(parts);
}


/// The text `.` is a neutral path of itself.
pub proof fn lemma_dot_path()
    ensures
        from_path_spec(seq!['.']) == Ok::<Seq<char>, crate::path::PathError>(seq!['.']),
{
    let d = seq!['.'];
    let e = Seq::<char>::empty();
    assert(!d.contains(':')) by {
        if d.contains(':') {
            let k = choose|k: int| 0 <= k < d.len() && d[k] == ':';
        }
    }
    lemma_no_colon_no_drive(d);
    assert(no_sep(d, true));
    lemma_split_append_plain(e, d, true);
    assert(e + d =~= d);
    assert(split_parts(e, true) == seq![e]);
    assert(seq![e].update(0, e + d) =~= seq![d]);
    let ps = seq![d];
    assert(ps.drop_last() =~= Seq::<Seq<char>>::empty());
    assert(ps.last() == d);
    assert(fold_checked(Seq::<Seq<char>>::empty()) == Ok::<Seq<Seq<char>>, crate::path::PathError>(
        Seq::empty(),
    ));
    assert(fold_checked(ps) == Ok::<Seq<Seq<char>>, crate::path::PathError>(Seq::empty()));
}

pub proof fn lemma_first_absolute_push(ps: Seq<Seq<char>>, p: Seq<char>)
    requires
        first_absolute(ps) is None,
    ensures
        first_absolute(ps.push(p)) == (match absolute_check(p) {
            Err(e) => Some(e),
            Ok(_) => None::<crate::path::PathError>,
        }),
    decreases ps.len(),
{
    if ps.len() == 0 {
        assert(ps.push(p).drop_first() =~= Seq::<Seq<char>>::empty());
        assert(ps.push(p)[0] == p);
        assert(first_absolute(Seq::<Seq<char>>::empty()) is None);
    } else {
        assert(ps.push(p).drop_first() =~= ps.drop_first().push(p));
        assert(ps.push(p)[0] == ps[0]);
        lemma_first_absolute_push(ps.drop_first(), p);
    }
}

pub proof fn lemma_first_absolute_prefix(a: Seq<Seq<char>>, b: Seq<Seq<char>>)
    requires
        a.len() <= b.len(),
        b.take(a.len() as int) == a,
        first_absolute(a) is Some,
    ensures
        first_absolute(b) == first_absolute(a),
    decreases a.len(),
{
    assert(a.len() > 0);
    assert(b[0] == a[0]);
    if absolute_check(a[0]) is Ok {
        assert(b.drop_first().take(a.len() - 1) =~= a.drop_first());
        lemma_first_absolute_prefix(a.drop_first(), b.drop_first());
    }
}


pub proof fn lemma_dotdot_ok()
    ensures
        component_ok(seq!['.', '.']),
{
    let d = seq!['.', '.'];
    assert(!d.contains('/')) by {
        if d.contains('/') {
            let k = choose|k: int| 0 <= k < d.len() && d[k] == '/';
        }
    }
    assert(!d.contains('\\')) by {
        if d.contains('\\') {
            let k = choose|k: int| 0 <= k < d.len() && d[k] == '\\';
        }
    }
}

} // verus!
