//! Laws of neutral paths.
use vstd::prelude::*;

use crate::path::lemmas::{
    lemma_common_prefix_at, lemma_fold_checked_ok, lemma_fold_checked_succeeds, lemma_inv_text,
    lemma_no_colon_no_drive, lemma_normalized_ok, lemma_render_inv, lemma_split_join,
    lemma_split_nonempty, lemma_split_parts_no_sep, no_sep, stack_ok,
};
use crate::path::spec::{
    absolute_check, component_ok, fold_checked, fold_components, fold_from, from_path_spec,
    is_dot, is_dotdot, is_named, name_check, push_component, relative_parts,
    relative_spec, render, split_parts, starts_with_dotdot, join_all_spec, concat_parts, first_absolute,
    neutral_inv, join_spec, has_drive_prefix, is_ascii_alpha, is_separator, filename_spec,
    after_last, last_index, join_slash, common_prefix_len, extname_spec, is_reserved_upper,
    upper_seq, stem,
};
use crate::path::PathError;

verus! {

/// `..` components stand only before every named component.
pub open spec fn dotdots_lead(st: Seq<Seq<char>>) -> bool {
    forall|i: int, j: int|
        0 <= i < j < st.len() && is_dotdot(#[trigger] st[j]) ==> is_dotdot(#[trigger] st[i])
}

proof fn lemma_push_keeps_lead(st: Seq<Seq<char>>, p: Seq<char>)
    requires
        dotdots_lead(st),
    ensures
        dotdots_lead(push_component(st, p)),
{
    let g = push_component(st, p);
    if p.len() == 0 || is_dot(p) {
    } else if is_dotdot(p) {
        if st.len() > 0 && !is_dotdot(st.last()) {
            assert forall|i: int, j: int|
                0 <= i < j < g.len() && is_dotdot(#[trigger] g[j]) implies is_dotdot(
                #[trigger] g[i],
            ) by {
                assert(g[i] == st[i] && g[j] == st[j]);
            }
        } else {
            assert forall|i: int, j: int|
                0 <= i < j < g.len() && is_dotdot(#[trigger] g[j]) implies is_dotdot(
                #[trigger] g[i],
            ) by {
                if j < st.len() {
                    assert(g[i] == st[i] && g[j] == st[j]);
                } else {
                    assert(g[i] == st[i]);
                    if i < st.len() - 1 {
                        assert(is_dotdot(st[st.len() - 1]));
                    }
                }
            }
        }
    } else {
        assert forall|i: int, j: int|
            0 <= i < j < g.len() && is_dotdot(#[trigger] g[j]) implies is_dotdot(#[trigger] g[i]) by {
            if j < st.len() {
                assert(g[i] == st[i] && g[j] == st[j]);
            } else {
                assert(g[j] == p);
            }
        }
    }
}

proof fn lemma_fold_checked_lead(parts: Seq<Seq<char>>)
    requires
        fold_checked(parts) is Ok,
    ensures
        dotdots_lead(fold_checked(parts)->Ok_0),
    decreases parts.len(),
{
    if parts.len() > 0 {
        lemma_fold_checked_lead(parts.drop_last());
        let st = fold_checked(parts.drop_last())->Ok_0;
        lemma_push_keeps_lead(st, parts.last());
        if is_named(parts.last()) {
            assert(push_component(st, parts.last()) == st.push(parts.last()));
        }
    }
}

/// Folding a stack that is already normal leaves it unchanged.
proof fn lemma_fold_normal(c: Seq<Seq<char>>)
    requires
        stack_ok(c),
        dotdots_lead(c),
    ensures
        fold_components(c) == c,
    decreases c.len(),
{
    if c.len() > 0 {
        let d = c.drop_last();
        assert(stack_ok(d)) by {
            assert forall|i: int| 0 <= i < d.len() implies component_ok(#[trigger] d[i]) && !is_dot(
                d[i],
            ) by {
                assert(d[i] == c[i]);
            }
        }
        assert(dotdots_lead(d)) by {
            assert forall|i: int, j: int|
                0 <= i < j < d.len() && is_dotdot(#[trigger] d[j]) implies is_dotdot(
                #[trigger] d[i],
            ) by {
                assert(d[i] == c[i] && d[j] == c[j]);
            }
        }
        lemma_fold_normal(d);
        let p = c.last();
        assert(component_ok(c[c.len() - 1]) && !is_dot(c[c.len() - 1]));
        if is_dotdot(p) && d.len() > 0 {
            assert(is_dotdot(c[d.len() - 1]));
        }
        assert(d.push(p) =~= c);
    }
}

/// Normalising the text of a normal stack gives that stack back.
proof fn lemma_render_fixed(c: Seq<Seq<char>>)
    requires
        stack_ok(c),
        dotdots_lead(c),
    ensures
        fold_checked(split_parts(render(c), true)) == Ok::<Seq<Seq<char>>, PathError>(c),
        absolute_check(render(c)) is Ok,
{
    lemma_render_inv(c);
    let t = render(c);
    lemma_inv_text(t);
    lemma_no_colon_no_drive(t);
    if c.len() == 0 {
        let d = seq!['.'];
        lemma_dot_split();
        assert(t == d);
        assert(split_parts(t, true) == seq![d]);
        assert(fold_checked(Seq::<Seq<char>>::empty()) == Ok::<Seq<Seq<char>>, PathError>(
            Seq::empty(),
        ));
        assert(seq![d].drop_last() =~= Seq::<Seq<char>>::empty());
        assert(seq![d].last() == d);
        assert(!is_named(d));
        assert(push_component(Seq::<Seq<char>>::empty(), d) == c);
    } else {
        assert forall|i: int| 0 <= i < c.len() implies no_sep(#[trigger] c[i], false) by {
            assert(component_ok(c[i]));
            assert forall|k: int| 0 <= k < c[i].len() implies !crate::path::spec::is_separator(
                #[trigger] c[i][k],
                false,
            ) by {
                if c[i][k] == '/' {
                    assert(c[i].contains('/'));
                }
            }
        }
        lemma_split_join(c, false);
        assert forall|i: int| 0 <= i < c.len() && is_named(#[trigger] c[i]) implies name_check(
            c[i],
        ) is Ok by {
            assert(component_ok(c[i]));
        }
        lemma_fold_checked_succeeds(c);
        lemma_fold_normal(c);
    }
}

proof fn lemma_dot_split()
    ensures
        split_parts(seq!['.'], false) == seq![seq!['.']],
{
    let d = seq!['.'];
    let e = Seq::<char>::empty();
    assert(d.drop_last() =~= e);
    assert(d.last() == '.');
    assert(split_parts(e, false) == seq![e]);
    assert(seq![e].update(0, e.push('.')) =~= seq![d]);
}

/// Normalising is idempotent: what `from_path` gives, `from_path` gives back unchanged.
pub proof fn law_from_path_idempotent(s: Seq<char>)
    requires
        from_path_spec(s) is Ok,
    ensures
        from_path_spec(from_path_spec(s)->Ok_0) == from_path_spec(s),
        render(fold_components(split_parts(from_path_spec(s)->Ok_0, true))) == from_path_spec(
            s,
        )->Ok_0,
{
    let parts = split_parts(s, true);
    lemma_split_parts_no_sep(s, true);
    lemma_fold_checked_ok(parts);
    lemma_fold_checked_lead(parts);
    let c = fold_checked(parts)->Ok_0;
    lemma_render_fixed(c);
    let t = render(c);
    lemma_split_parts_no_sep(t, true);
    assert(fold_checked(split_parts(t, true)) == Ok::<Seq<Seq<char>>, PathError>(c));
    lemma_fold_checked_succeeds_or_eq(split_parts(t, true), c);
}

proof fn lemma_fold_checked_succeeds_or_eq(parts: Seq<Seq<char>>, c: Seq<Seq<char>>)
    requires
        fold_checked(parts) == Ok::<Seq<Seq<char>>, PathError>(c),
    ensures
        fold_components(parts) == c,
    decreases parts.len(),
{
    if parts.len() > 0 {
        let st = fold_checked(parts.drop_last())->Ok_0;
        lemma_fold_checked_succeeds_or_eq(parts.drop_last(), st);
    }
}

/// A path lies in its own directory, and the relative path to itself is `.`.
pub proof fn law_in_own_dir(s: Seq<char>)
    ensures
        !starts_with_dotdot(relative_spec(s, s)),
        relative_spec(s, s) == seq!['.'],
{
    let f = split_parts(s, false);
    lemma_common_prefix_at(f, f, f.len() as int);
    assert(relative_parts(f, f) =~= Seq::<Seq<char>>::empty());
}

/// Normalising the text leaves it unchanged.
pub open spec fn is_normal(t: Seq<char>) -> bool {
    render(fold_components(split_parts(t, true))) == t
}

/// The canonical text of a neutral path: not empty, not absolute, free of `\\` and
/// `:`, every component acceptable; and `.`, or components that are neither empty nor
/// `.`, with every `..` before every named component.
pub open spec fn canonical(t: Seq<char>) -> bool {
    &&& neutral_inv(t)
    &&& t.len() > 0
    &&& t[0] != '/'
    &&& !t.contains('\\')
    &&& !t.contains(':')
    &&& (t == seq!['.'] || (stack_ok(split_parts(t, false)) && dotdots_lead(split_parts(t, false))))
}

/// The text of a normal stack is canonical.
proof fn lemma_render_canonical(c: Seq<Seq<char>>)
    requires
        stack_ok(c),
        dotdots_lead(c),
    ensures
        canonical(render(c)),
{
    assert forall|i: int| 0 <= i < c.len() implies component_ok(#[trigger] c[i]) by {}
    lemma_render_inv(c);
    lemma_inv_text(render(c));
    if c.len() > 0 {
        lemma_render_split(c);
    }
}

proof fn lemma_fold_from_lead(st: Seq<Seq<char>>, parts: Seq<Seq<char>>)
    requires
        dotdots_lead(st),
    ensures
        dotdots_lead(fold_from(st, parts)),
    decreases parts.len(),
{
    if parts.len() > 0 {
        lemma_fold_from_lead(st, parts.drop_last());
        lemma_push_keeps_lead(fold_from(st, parts.drop_last()), parts.last());
    }
}

/// Rendering a normal stack and splitting it at `/` gives the stack back.
proof fn lemma_render_split(c: Seq<Seq<char>>)
    requires
        stack_ok(c),
        c.len() > 0,
    ensures
        split_parts(render(c), false) == c,
{
    assert forall|i: int| 0 <= i < c.len() implies no_sep(#[trigger] c[i], false) by {
        assert(component_ok(c[i]));
        assert forall|k: int| 0 <= k < c[i].len() implies !crate::path::spec::is_separator(
            #[trigger] c[i][k],
            false,
        ) by {
            if c[i][k] == '/' {
                assert(c[i].contains('/'));
            }
        }
    }
    lemma_split_join(c, false);
}

/// What `from_path` gives is canonical.
pub proof fn law_from_path_canonical(s: Seq<char>)
    requires
        from_path_spec(s) is Ok,
    ensures
        canonical(from_path_spec(s)->Ok_0),
{
    let parts = split_parts(s, true);
    lemma_split_parts_no_sep(s, true);
    lemma_fold_checked_ok(parts);
    lemma_fold_checked_lead(parts);
    let c = fold_checked(parts)->Ok_0;
    lemma_render_canonical(c);
}

/// Normalising a neutral path twice gives what normalising it once gives, and the
/// result is canonical.
pub proof fn law_normalize_idempotent(s: Seq<char>)
    requires
        neutral_inv(s),
    ensures
        render(fold_components(split_parts(render(fold_components(split_parts(s, true))), true)))
            == render(fold_components(split_parts(s, true))),
        canonical(render(fold_components(split_parts(s, true)))),
{
    let c = fold_components(split_parts(s, true));
    lemma_normalized_ok(s, false);
    lemma_fold_from_lead(Seq::empty(), split_parts(s, true));
    lemma_render_fixed(c);
    lemma_fold_checked_succeeds_or_eq(split_parts(render(c), true), c);
    lemma_render_canonical(c);
}

/// Joining nothing onto what `from_path` gave changes nothing.
pub proof fn law_join_all_empty(s: Seq<char>)
    requires
        from_path_spec(s) is Ok,
    ensures
        join_all_spec(from_path_spec(s)->Ok_0, Seq::empty()) == from_path_spec(s),
{
    law_from_path_idempotent(s);
}

/// Splitting `x/b` splits `x` and `b` apart.
proof fn lemma_split_concat(x: Seq<char>, b: Seq<char>, both: bool)
    ensures
        split_parts(x + seq!['/'] + b, both) == split_parts(x, both) + split_parts(b, both),
    decreases b.len(),
{
    let y = x + seq!['/'];
    let e = Seq::<char>::empty();
    assert(y.drop_last() =~= x);
    assert(y.last() == '/');
    let r0 = split_parts(x, both);
    if b.len() == 0 {
        assert(y + b =~= y);
        assert(split_parts(b, both) == seq![e]);
        assert(r0.push(e) =~= r0 + seq![e]);
    } else {
        let b0 = b.drop_last();
        lemma_split_concat(x, b0, both);
        assert((y + b).drop_last() =~= y + b0);
        assert((y + b).last() == b.last());
        assert(b0.push(b.last()) =~= b);
        lemma_split_nonempty(b0, both);
        let q0 = split_parts(b0, both);
        let r = r0 + q0;
        if is_separator(b.last(), both) {
            assert(r.push(e) =~= r0 + q0.push(e));
        } else {
            assert(r.last() == q0.last());
            assert(r.update(r.len() - 1, r.last().push(b.last())) =~= r0 + q0.update(
                q0.len() - 1,
                q0.last().push(b.last()),
            ));
        }
    }
}

/// What follows a prefix folds the same way after two prefixes that fold alike.
proof fn lemma_fold_checked_same_prefix(p1: Seq<Seq<char>>, p2: Seq<Seq<char>>, q: Seq<Seq<char>>)
    requires
        fold_checked(p1) == fold_checked(p2),
    ensures
        fold_checked(p1 + q) == fold_checked(p2 + q),
    decreases q.len(),
{
    if q.len() == 0 {
        assert(p1 + q =~= p1);
        assert(p2 + q =~= p2);
    } else {
        lemma_fold_checked_same_prefix(p1, p2, q.drop_last());
        assert((p1 + q).drop_last() =~= p1 + q.drop_last());
        assert((p2 + q).drop_last() =~= p2 + q.drop_last());
        assert((p1 + q).last() == q.last());
        assert((p2 + q).last() == q.last());
    }
}

/// A neutral path followed by `/` and anything is not absolute.
proof fn lemma_abs_ok_after(t: Seq<char>, rest: Seq<char>)
    requires
        neutral_inv(t),
    ensures
        absolute_check(t + seq!['/'] + rest) is Ok,
{
    lemma_inv_text(t);
    let y = t + seq!['/'] + rest;
    assert(y[0] == t[0]);
    if has_drive_prefix(y) {
        let i = choose|i: int|
            0 <= i < y.len() && y[i] == ':' && (forall|j: int|
                0 <= j < i ==> is_ascii_alpha(#[trigger] y[j]));
        if i < t.len() {
            assert(y[i] == t[i]);
            assert(t.contains(':'));
        } else if i == t.len() {
            assert(y[i] == '/');
        } else {
            assert(y[t.len() as int] == '/');
            assert(is_ascii_alpha(y[t.len() as int]));
        }
    }
}

/// Normalising `x/b` where `x` is a neutral path followed by `/` and a part: an error
/// of `x` is the error of `x/b`, and otherwise `x` may be replaced by its normal form.
proof fn lemma_join_steps(t: Seq<char>, a: Seq<char>, b: Seq<char>)
    requires
        neutral_inv(t),
    ensures
        from_path_spec(t + seq!['/'] + a) is Err ==> from_path_spec(t + seq!['/'] + a + seq!['/'] + b)
            == from_path_spec(t + seq!['/'] + a),
        from_path_spec(t + seq!['/'] + a) matches Ok(u) ==> (absolute_check(b) is Ok ==> from_path_spec(
            u + seq!['/'] + b,
        ) == from_path_spec(t + seq!['/'] + a + seq!['/'] + b)),
{
    let x = t + seq!['/'] + a;
    assert(x + seq!['/'] + b =~= t + seq!['/'] + (a + seq!['/'] + b));
    lemma_abs_ok_after(t, a);
    lemma_abs_ok_after(t, a + seq!['/'] + b);
    lemma_split_concat(x, b, true);
    let px = split_parts(x, true);
    let pb = split_parts(b, true);
    match fold_checked(px) {
        Err(e) => {
            assert((px + pb).take(px.len() as int) =~= px);
            crate::path::lemmas::lemma_fold_checked_err_prefix(px, px + pb);
        },
        Ok(c1) => {
            lemma_split_parts_no_sep(x, true);
            lemma_fold_checked_ok(px);
            lemma_fold_checked_lead(px);
            let u = render(c1);
            assert forall|i: int| 0 <= i < c1.len() implies component_ok(#[trigger] c1[i]) by {}
            lemma_render_inv(c1);
            lemma_render_fixed(c1);
            if absolute_check(b) is Ok {
                lemma_abs_ok_after(u, b);
                lemma_split_concat(u, b, true);
                lemma_fold_checked_same_prefix(split_parts(u, true), px, pb);
            }
        },
    }
}

/// Joining two parts at once onto what `from_path` gave is joining them one after the
/// other, except that when the first join fails and the second part is absolute, the
/// joint join reports the absolute part.
pub proof fn law_join_all_two(s: Seq<char>, a: Seq<char>, b: Seq<char>)
    requires
        from_path_spec(s) is Ok,
    ensures
        join_spec(from_path_spec(s)->Ok_0, a) matches Ok(u) ==> join_all_spec(
            from_path_spec(s)->Ok_0,
            seq![a, b],
        ) == join_spec(u, b),
        join_spec(from_path_spec(s)->Ok_0, a) is Err && absolute_check(b) is Ok ==> join_all_spec(
            from_path_spec(s)->Ok_0,
            seq![a, b],
        ) == join_spec(from_path_spec(s)->Ok_0, a),
{
    let parts = split_parts(s, true);
    lemma_split_parts_no_sep(s, true);
    lemma_fold_checked_ok(parts);
    let c = fold_checked(parts)->Ok_0;
    let t = render(c);
    assert forall|i: int| 0 <= i < c.len() implies component_ok(#[trigger] c[i]) by {}
    lemma_render_inv(c);
    let ab = seq![a, b];
    let e = Seq::<Seq<char>>::empty();
    assert(ab.drop_last() =~= seq![a]);
    assert(seq![a].drop_last() =~= e);
    assert(ab.last() == b);
    assert(seq![a].last() == a);
    assert(concat_parts(t, e) == t);
    assert(concat_parts(t, seq![a]) == t + seq!['/'] + a);
    assert(concat_parts(t, ab) == t + seq!['/'] + a + seq!['/'] + b);
    assert(ab.drop_first() =~= seq![b]);
    assert(seq![b].drop_first() =~= e);
    assert(first_absolute(e) is None);
    assert(ab[0] == a && seq![b][0] == b);
    assert(from_path_spec(s)->Ok_0 == t);
    lemma_join_steps(t, a, b);
    if absolute_check(a) is Ok {
        assert(join_spec(t, a) == from_path_spec(t + seq!['/'] + a));
        if absolute_check(b) is Ok {
            assert(first_absolute(seq![b]) is None);
            assert(first_absolute(ab) is None);
            assert(join_all_spec(t, ab) == from_path_spec(t + seq!['/'] + a + seq!['/'] + b));
        } else {
            assert(first_absolute(seq![b]) == Some(absolute_check(b)->Err_0));
            assert(first_absolute(ab) == Some(absolute_check(b)->Err_0));
        }
    } else {
        assert(first_absolute(ab) == Some(absolute_check(a)->Err_0));
    }
}

proof fn lemma_last_index_facts(s: Seq<char>, c: char)
    ensures
        -1 <= last_index(s, c) < s.len(),
        last_index(s, c) >= 0 ==> s[last_index(s, c)] == c,
        forall|j: int| last_index(s, c) < j < s.len() ==> s[j] != c,
    decreases s.len(),
{
    if s.len() > 0 && s.last() != c {
        lemma_last_index_facts(s.drop_last(), c);
        assert forall|j: int| last_index(s, c) < j < s.len() implies s[j] != c by {
            if j < s.len() - 1 {
                assert(s[j] == s.drop_last()[j]);
            }
        }
    }
}

/// The text after the last `/` is the last `/`-separated part.
proof fn lemma_after_last_is_last_part(t: Seq<char>)
    ensures
        split_parts(t, false).len() >= 1,
        after_last(t, '/') == split_parts(t, false).last(),
{
    lemma_last_index_facts(t, '/');
    let li = last_index(t, '/');
    crate::path::lemmas::lemma_split_last(t, li + 1, t.len() as int, false);
    assert(t.take(t.len() as int) =~= t);
}

/// A part that names a file is not absolute and splits to itself.
proof fn lemma_named_part(f: Seq<char>)
    requires
        component_ok(f),
    ensures
        absolute_check(f) is Ok,
        split_parts(f, true) == seq![f],
{
    crate::path::lemmas::lemma_dots_lack_colon(f);
    lemma_no_colon_no_drive(f);
    if f[0] == '/' || f[0] == '\\' {
        assert(f.contains(f[0]));
    }
    assert(no_sep(f, true)) by {
        assert forall|k: int| 0 <= k < f.len() implies !is_separator(#[trigger] f[k], true) by {
            if f[k] == '/' || f[k] == '\\' {
                assert(f.contains(f[k]));
            }
        }
    }
    lemma_split_join(seq![f], true);
    assert(join_slash(seq![f]) == f);
}

proof fn lemma_dotdot_split()
    ensures
        split_parts(seq!['.', '.'], true) == seq![seq!['.', '.']],
{
    let dd = seq!['.', '.'];
    assert(no_sep(dd, true)) by {
        assert forall|k: int| 0 <= k < dd.len() implies !is_separator(#[trigger] dd[k], true) by {
            assert(dd[k] == '.');
        }
    }
    lemma_split_join(seq![dd], true);
    assert(join_slash(seq![dd]) == dd);
}

/// The parent of what `from_path` gave, joined with its file name, is the path again.
#[verifier::spinoff_prover]
#[verifier::rlimit(30)]
pub proof fn law_parent_then_filename(s: Seq<char>)
    requires
        from_path_spec(s) is Ok,
    ensures
        filename_spec(from_path_spec(s)->Ok_0) matches Some(f) ==> (join_spec(
            from_path_spec(s)->Ok_0,
            seq!['.', '.'],
        ) matches Ok(q) && join_spec(q, f) == from_path_spec(s)),
{
    let parts = split_parts(s, true);
    lemma_split_parts_no_sep(s, true);
    lemma_fold_checked_ok(parts);
    lemma_fold_checked_lead(parts);
    let c = fold_checked(parts)->Ok_0;
    let t = render(c);
    assert(from_path_spec(s)->Ok_0 == t);
    lemma_after_last_is_last_part(t);
    if filename_spec(t) is Some {
        let f = after_last(t, '/');
        if c.len() == 0 {
            lemma_dot_split();
            assert(split_parts(t, false) == seq![seq!['.']]);
            assert(false);
        }
        lemma_render_split(c);
        assert(f == c[c.len() - 1]);
        assert(component_ok(f));
        let d = c.drop_last();
        assert(d.push(f) =~= c);
        assert(stack_ok(d)) by {
            assert forall|i: int| 0 <= i < d.len() implies component_ok(#[trigger] d[i]) && !is_dot(d[i]) by {
                assert(d[i] == c[i]);
            }
        }
        assert(dotdots_lead(d)) by {
            assert forall|i: int, j: int|
                0 <= i < j < d.len() && is_dotdot(#[trigger] d[j]) implies is_dotdot(#[trigger] d[i]) by {
                assert(d[i] == c[i] && d[j] == c[j]);
            }
        }
        // the parent
        let dd = seq!['.', '.'];
        assert forall|i: int| 0 <= i < c.len() implies component_ok(#[trigger] c[i]) by {}
        lemma_render_inv(c);
        lemma_render_fixed(c);
        lemma_abs_ok_after(t, dd);
        lemma_split_concat(t, dd, true);
        let pdd = split_parts(dd, true);
        lemma_dotdot_split();
        let pt = split_parts(t, true);
        assert((pt + pdd).drop_last() =~= pt);
        assert((pt + pdd).last() == dd);
        assert(fold_checked(pt + pdd) == Ok::<Seq<Seq<char>>, PathError>(d));
        let q = render(d);
        assert(join_spec(t, dd) == Ok::<Seq<char>, PathError>(q));
        // the parent joined with the file name
        lemma_named_part(f);
        assert forall|i: int| 0 <= i < d.len() implies component_ok(#[trigger] d[i]) by {}
        lemma_render_inv(d);
        lemma_render_fixed(d);
        lemma_abs_ok_after(q, f);
        lemma_split_concat(q, f, true);
        lemma_fold_checked_succeeds(d);
        lemma_fold_normal(d);
        lemma_fold_checked_same_prefix(split_parts(q, true), d, seq![f]);
        assert(d + seq![f] =~= c);
        assert(crate::path::spec::is_named(f));
        assert forall|i: int| 0 <= i < c.len() && is_named(#[trigger] c[i]) implies name_check(c[i]) is Ok by {
            assert(component_ok(c[i]));
        }
        lemma_fold_checked_succeeds(c);
        lemma_fold_normal(c);
    }
}

/// The parent of `.` is `..`.
pub proof fn law_parent_of_current_dir()
    ensures
        join_spec(seq!['.'], seq!['.', '.']) == Ok::<Seq<char>, PathError>(seq!['.', '.']),
{
    let e = Seq::<Seq<char>>::empty();
    lemma_render_fixed(e);
    let dot = render(e);
    assert(dot == seq!['.']);
    lemma_render_inv(e);
    let dd = seq!['.', '.'];
    lemma_abs_ok_after(dot, dd);
    lemma_split_concat(dot, dd, true);
    let pdd = split_parts(dd, true);
    lemma_dotdot_split();
    let pt = split_parts(dot, true);
    assert((pt + pdd).drop_last() =~= pt);
    assert((pt + pdd).last() == dd);
    assert(push_component(e, dd) =~= seq![dd]);
    assert(fold_checked(pt + pdd) == Ok::<Seq<Seq<char>>, PathError>(seq![dd]));
    assert(render(seq![dd]) == dd);
}

/// `n` copies of `..`.
pub open spec fn climbs(n: nat) -> Seq<Seq<char>> {
    Seq::new(n, |i: int| seq!['.', '.'])
}

/// Some `/`-separated component of `t` is `..`.
pub open spec fn has_dotdot_component(t: Seq<char>) -> bool {
    exists|i: int| 0 <= i < split_parts(t, false).len() && is_dotdot(#[trigger] split_parts(t, false)[i])
}

proof fn lemma_common_prefix_facts(a: Seq<Seq<char>>, b: Seq<Seq<char>>)
    ensures
        common_prefix_len(a, b) <= a.len(),
        common_prefix_len(a, b) <= b.len(),
        forall|j: int| 0 <= j < common_prefix_len(a, b) ==> a[j] == b[j],
        common_prefix_len(a, b) < a.len() && common_prefix_len(a, b) < b.len() ==> a[common_prefix_len(
            a,
            b,
        ) as int] != b[common_prefix_len(a, b) as int],
    decreases a.len(),
{
    if a.len() > 0 && b.len() > 0 && a[0] == b[0] {
        lemma_common_prefix_facts(a.drop_first(), b.drop_first());
        assert forall|j: int| 0 <= j < common_prefix_len(a, b) implies a[j] == b[j] by {
            if j > 0 {
                assert(a[j] == a.drop_first()[j - 1] && b[j] == b.drop_first()[j - 1]);
            }
        }
    }
}

/// Each `..` cancels the last named component.
proof fn lemma_fold_pops(p: Seq<Seq<char>>, st: Seq<Seq<char>>, n: Seq<Seq<char>>, j: nat)
    requires
        fold_checked(p) == Ok::<Seq<Seq<char>>, PathError>(st + n),
        forall|i: int| 0 <= i < n.len() ==> is_named(#[trigger] n[i]),
        j <= n.len(),
    ensures
        fold_checked(p + climbs(j)) == Ok::<Seq<Seq<char>>, PathError>(st + n.take(n.len() - j)),
    decreases j,
{
    if j == 0 {
        assert(p + climbs(0) =~= p);
        assert(n.take(n.len() as int) =~= n);
    } else {
        lemma_fold_pops(p, st, n, (j - 1) as nat);
        let q = p + climbs(j);
        assert(q.drop_last() =~= p + climbs((j - 1) as nat));
        assert(q.last() == seq!['.', '.']);
        let top = st + n.take(n.len() - j + 1);
        assert(top.last() == n[n.len() - j]);
        assert(top.drop_last() =~= st + n.take(n.len() - j));
    }
}

/// Named components that pass the checks are pushed as they are.
proof fn lemma_fold_pushes(p: Seq<Seq<char>>, st: Seq<Seq<char>>, q: Seq<Seq<char>>)
    requires
        fold_checked(p) == Ok::<Seq<Seq<char>>, PathError>(st),
        forall|i: int| 0 <= i < q.len() ==> is_named(#[trigger] q[i]) && name_check(q[i]) is Ok,
    ensures
        fold_checked(p + q) == Ok::<Seq<Seq<char>>, PathError>(st + q),
    decreases q.len(),
{
    if q.len() == 0 {
        assert(p + q =~= p);
        assert(st + q =~= st);
    } else {
        lemma_fold_pushes(p, st, q.drop_last());
        assert((p + q).drop_last() =~= p + q.drop_last());
        assert((p + q).last() == q[q.len() - 1]);
        assert((st + q.drop_last()).push(q.last()) =~= st + q);
    }
}

/// The components of a canonical path that does not climb and is not `.` are all named.
proof fn lemma_canonical_named(s: Seq<char>) -> (c: Seq<Seq<char>>)
    requires
        from_path_spec(s) is Ok,
        !has_dotdot_component(from_path_spec(s)->Ok_0),
    ensures
        stack_ok(c),
        dotdots_lead(c),
        render(c) == from_path_spec(s)->Ok_0,
        c.len() > 0 ==> split_parts(render(c), false) == c,
        c.len() == 0 ==> split_parts(render(c), false) == seq![seq!['.']],
        forall|i: int| 0 <= i < c.len() ==> is_named(#[trigger] c[i]) && name_check(c[i]) is Ok,
{
    let parts = split_parts(s, true);
    lemma_split_parts_no_sep(s, true);
    lemma_fold_checked_ok(parts);
    lemma_fold_checked_lead(parts);
    let c = fold_checked(parts)->Ok_0;
    if c.len() > 0 {
        lemma_render_split(c);
        assert forall|i: int| 0 <= i < c.len() implies is_named(#[trigger] c[i]) && name_check(c[i]) is Ok by {
            assert(component_ok(c[i]) && !is_dot(c[i]));
            if is_dotdot(c[i]) {
                assert(split_parts(render(c), false)[i] == c[i]);
            }
        }
    } else {
        lemma_dot_split();
    }
    c
}

/// From a path that neither is `.` nor climbs, following the relative path to another
/// such path arrives at that path.
#[verifier::spinoff_prover]
#[verifier::rlimit(60)]
pub proof fn law_relative_round_trip(s1: Seq<char>, s2: Seq<char>)
    requires
        from_path_spec(s1) is Ok,
        from_path_spec(s2) is Ok,
        from_path_spec(s1)->Ok_0 != seq!['.'],
        !has_dotdot_component(from_path_spec(s1)->Ok_0),
        !has_dotdot_component(from_path_spec(s2)->Ok_0),
    ensures
        join_spec(
            from_path_spec(s1)->Ok_0,
            relative_spec(from_path_spec(s1)->Ok_0, from_path_spec(s2)->Ok_0),
        ) == from_path_spec(s2),
{
    let ca = lemma_canonical_named(s1);
    let cb = lemma_canonical_named(s2);
    let a = render(ca);
    let b = render(cb);
    assert(ca.len() > 0);
    let f = split_parts(a, false);
    let t = split_parts(b, false);
    assert(f == ca);
    lemma_common_prefix_facts(f, t);
    let k = common_prefix_len(f, t) as int;
    let m = (f.len() - k) as nat;
    let rel = relative_parts(f, t);
    assert(rel == climbs(m) + t.skip(k));
    assert forall|i: int| 0 <= i < ca.len() implies component_ok(#[trigger] ca[i]) by {}
    lemma_render_inv(ca);
    lemma_inv_text(a);
    lemma_render_fixed(ca);
    assert(fold_checked(ca) == Ok::<Seq<Seq<char>>, PathError>(ca));
    if cb.len() == 0 {
        assert(t[0] == seq!['.']);
        assert(k == 0) by {
            if k > 0 {
                assert(f[0] == t[0]);
            }
        }
    }
    if rel.len() == 0 {
        assert(m == 0);
        assert(t.len() == k);
        assert(cb.len() > 0);
        assert(ca =~= cb) by {
            assert forall|j: int| 0 <= j < ca.len() implies ca[j] == cb[j] by {}
        }
        let dot = seq!['.'];
        lemma_dot_split();
        assert(render(rel) == dot);
        assert(absolute_check(dot) is Ok) by {
            lemma_no_colon_no_drive(dot);
        }
        lemma_abs_ok_after(a, dot);
        lemma_split_concat(a, dot, true);
        assert(split_parts(dot, true) == seq![dot]) by {
            assert(no_sep(dot, true)) by {
                assert forall|j: int| 0 <= j < dot.len() implies !is_separator(#[trigger] dot[j], true) by {
                    assert(dot[j] == '.');
                }
            }
            lemma_split_join(seq![dot], true);
            assert(join_slash(seq![dot]) == dot);
        }
        let pa = split_parts(a, true);
        assert((pa + seq![dot]).drop_last() =~= pa);
        assert((pa + seq![dot]).last() == dot);
    } else {
        assert forall|i: int| 0 <= i < rel.len() implies component_ok(#[trigger] rel[i]) by {
            if i >= m {
                assert(rel[i] == t[k + i - m]);
                if cb.len() > 0 {
                    assert(t[k + i - m] == cb[k + i - m]);
                } else {
                    assert(component_ok(seq!['.'])) by {
                        lemma_render_inv(cb);
                        assert(split_parts(render(cb), false)[0] == seq!['.']);
                    }
                }
            } else {
                assert(rel[i] == seq!['.', '.']);
                crate::path::lemmas::lemma_dotdot_ok();
            }
        }
        let r = render(rel);
        lemma_render_inv(rel);
        lemma_inv_text(r);
        lemma_no_colon_no_drive(r);
        assert(absolute_check(r) is Ok);
        assert forall|i: int| 0 <= i < rel.len() implies no_sep(#[trigger] rel[i], true) by {
            assert(component_ok(rel[i]));
            assert forall|j: int| 0 <= j < rel[i].len() implies !is_separator(#[trigger] rel[i][j], true) by {
                if rel[i][j] == '/' || rel[i][j] == '\\' {
                    assert(rel[i].contains(rel[i][j]));
                }
            }
        }
        lemma_split_join(rel, true);
        lemma_abs_ok_after(a, r);
        lemma_split_concat(a, r, true);
        let keep = ca.take(k);
        let gone = ca.skip(k);
        assert(keep + gone =~= ca);
        assert forall|i: int| 0 <= i < gone.len() implies is_named(#[trigger] gone[i]) by {
            assert(gone[i] == ca[k + i]);
        }
        lemma_fold_pops(ca, keep, gone, m);
        assert(gone.take(gone.len() - m) =~= Seq::<Seq<char>>::empty());
        assert(keep + Seq::<Seq<char>>::empty() =~= keep);
        assert(ca + rel =~= (ca + climbs(m)) + t.skip(k));
        if cb.len() > 0 {
            let rest = cb.skip(k);
            assert(t.skip(k) == rest);
            assert forall|i: int| 0 <= i < rest.len() implies is_named(#[trigger] rest[i]) && name_check(rest[i]) is Ok by {
                assert(rest[i] == cb[k + i]);
            }
            lemma_fold_pushes(ca + climbs(m), keep, rest);
            assert(keep + rest =~= cb) by {
                assert forall|j: int| 0 <= j < k implies keep[j] == cb[j] by {}
            }
        } else {
            assert(t.skip(k) =~= seq![seq!['.']]);
            let q = (ca + climbs(m)) + seq![seq!['.']];
            assert(q.drop_last() =~= ca + climbs(m));
            assert(q.last() == seq!['.']);
            assert(m == ca.len());
            assert(keep =~= Seq::<Seq<char>>::empty());
        }
    }
}

/// The file name is the last `/`-separated part of the path: a suffix of the text,
/// after a `/` or from its start, holding no `/`; there is none exactly when that part
/// is `.` or `..`.
pub proof fn law_filename(s: Seq<char>)
    ensures
        match filename_spec(s) {
            Some(f) => {
                &&& f.len() <= s.len()
                &&& s.subrange(s.len() - f.len(), s.len() as int) == f
                &&& f.len() == s.len() || s[s.len() - f.len() - 1] == '/'
                &&& !f.contains('/')
                &&& f != seq!['.']
                &&& f != seq!['.', '.']
            },
            None => {
                ||| s == seq!['.'] || s == seq!['.', '.']
                ||| s.len() >= 2 && s[s.len() - 1] == '.' && s[s.len() - 2] == '/'
                ||| s.len() >= 3 && s[s.len() - 1] == '.' && s[s.len() - 2] == '.' && s[s.len()
                    - 3] == '/'
            },
        },
{
    lemma_last_index_facts(s, '/');
    let li = last_index(s, '/');
    let f = after_last(s, '/');
    assert(f == s.subrange(li + 1, s.len() as int));
    if f.contains('/') {
        let j = choose|j: int| 0 <= j < f.len() && f[j] == '/';
        assert(s[li + 1 + j] == '/');
    }
    if filename_spec(s) is None {
        if li < 0 {
            assert(f =~= s);
        } else if f == seq!['.'] {
            assert(s[s.len() - 1] == f[0]);
        } else {
            assert(s[s.len() - 1] == f[1]);
            assert(s[s.len() - 2] == f[0]);
        }
    }
}

/// The extension is taken from the file name only: it is the text of the file name
/// after its last `.`, holding neither `.` nor `/`, and there is one exactly when the
/// file name holds a `.`.
pub proof fn law_extname(s: Seq<char>)
    ensures
        match extname_spec(s) {
            Some(e) => filename_spec(s) matches Some(f) && {
                &&& e.len() < f.len()
                &&& f[f.len() - e.len() - 1] == '.'
                &&& f.subrange(f.len() - e.len(), f.len() as int) == e
                &&& !e.contains('.')
                &&& !e.contains('/')
            },
            None => filename_spec(s) matches Some(f) ==> !f.contains('.'),
        },
{
    law_filename(s);
    if let Some(f) = filename_spec(s) {
        lemma_last_index_facts(f, '.');
        let k = last_index(f, '.');
        let e = after_last(f, '.');
        assert(e == f.subrange(k + 1, f.len() as int));
        if e.contains('.') {
            let j = choose|j: int| 0 <= j < e.len() && e[j] == '.';
            assert(f[k + 1 + j] == '.');
        }
        if e.contains('/') {
            let j = choose|j: int| 0 <= j < e.len() && e[j] == '/';
            assert(f[k + 1 + j] == '/');
            assert(f.contains('/'));
        }
        if k < 0 && f.contains('.') {
            let j = choose|j: int| 0 <= j < f.len() && f[j] == '.';
        }
    }
}

/// A name holding an apostrophe, a backquote or a dollar sign is refused.
pub proof fn law_quotes_refused(p: Seq<char>)
    ensures
        p.contains('\'') || p.contains('`') || p.contains('$') ==> name_check(p) is Err,
{
}

/// The checked fold fails as soon as one named part fails the name checks.
proof fn lemma_fold_checked_bad_part(parts: Seq<Seq<char>>, i: int)
    requires
        0 <= i < parts.len(),
        is_named(parts[i]),
        name_check(parts[i]) is Err,
    ensures
        fold_checked(parts) is Err,
    decreases parts.len(),
{
    if i < parts.len() - 1 {
        lemma_fold_checked_bad_part(parts.drop_last(), i);
    } else {
        assert(parts.last() == parts[i]);
    }
}

/// A path with a component holding an apostrophe, a backquote or a dollar sign is
/// refused.
pub proof fn law_from_path_refuses_quotes(s: Seq<char>, i: int)
    requires
        0 <= i < split_parts(s, true).len(),
        split_parts(s, true)[i].contains('\'') || split_parts(s, true)[i].contains('`')
            || split_parts(s, true)[i].contains('$'),
    ensures
        from_path_spec(s) is Err,
{
    let p = split_parts(s, true)[i];
    let j = choose|j: int| 0 <= j < p.len() && (p[j] == '\'' || p[j] == '`' || p[j] == '$');
    if is_dot(p) || is_dotdot(p) {
        assert(p[j] == '.');
    }
    law_quotes_refused(p);
    lemma_fold_checked_bad_part(split_parts(s, true), i);
}

/// A name passes the checks exactly when it holds none of `\0 < > : " | ? * ' ` $`,
/// does not end with a space or a dot, and is not a reserved Windows name.
pub proof fn law_name_check(p: Seq<char>)
    ensures
        (name_check(p) is Ok) == !(p.contains('\0') || p.contains('<') || p.contains('>')
            || p.contains(':') || p.contains('"') || p.contains('|') || p.contains('?')
            || p.contains('*') || p.contains('\'') || p.contains('`') || p.contains('$') || (p.len()
            > 0 && (p.last() == ' ' || p.last() == '.')) || is_reserved_upper(upper_seq(stem(p)))),
{
}

/// `from_path` accepts a text exactly when it is not absolute and every named
/// component passes the name checks.
pub proof fn law_from_path_ok(s: Seq<char>)
    ensures
        (from_path_spec(s) is Ok) == (absolute_check(s) is Ok && forall|i: int|
            0 <= i < split_parts(s, true).len() && is_named(#[trigger] split_parts(s, true)[i])
                ==> name_check(split_parts(s, true)[i]) is Ok),
{
    let parts = split_parts(s, true);
    if forall|i: int| 0 <= i < parts.len() && is_named(#[trigger] parts[i]) ==> name_check(parts[i]) is Ok {
        lemma_fold_checked_succeeds(parts);
    } else {
        let i = choose|i: int|
            0 <= i < parts.len() && is_named(#[trigger] parts[i]) && !(name_check(parts[i]) is Ok);
        lemma_fold_checked_bad_part(parts, i);
    }
}

} // verus!
