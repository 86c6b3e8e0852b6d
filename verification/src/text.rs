//! Character-level helpers on texts.
use vstd::prelude::*;

use crate::path::lemmas::lemma_last_index_at;
use crate::path::spec::{first_index, is_ascii_alpha, last_index};

verus! {

/// The characters of `s`.
pub fn chars_of(s: &str) -> (v: Vec<char>)
    ensures
        v@ == s@,
{
    let n = s.unicode_len();
    let mut v: Vec<char> = Vec::new();
    let mut i: usize = 0;
    while i < n
        invariant
            n == s@.len(),
            i <= n,
            v@ == s@.take(i as int),
        decreases n - i,
    {
        v.push(s.get_char(i));
        i = i + 1;
        assert(v@ =~= s@.take(i as int));
    }
    assert(v@ =~= s@);
    v
}

/// Whether `chars[lo..hi]` holds `c`.
pub fn range_contains(chars: &Vec<char>, lo: usize, hi: usize, c: char) -> (r: bool)
    requires
        lo <= hi <= chars@.len(),
    ensures
        r == chars@.subrange(lo as int, hi as int).contains(c),
{
    let ghost p = chars@.subrange(lo as int, hi as int);
    let mut i = lo;
    while i < hi
        invariant
            lo <= i <= hi <= chars@.len(),
            p == chars@.subrange(lo as int, hi as int),
            forall|j: int| lo <= j < i ==> chars@[j] != c,
        decreases hi - i,
    {
        if chars[i] == c {
            assert(p[i - lo] == c);
            return true;
        }
        i = i + 1;
    }
    assert(!p.contains(c)) by {
        if p.contains(c) {
            let j = choose|j: int| 0 <= j < p.len() && p[j] == c;
            assert(chars@[lo + j] == c);
        }
    }
    false
}

/// The offset in `chars[lo..hi]` of the first `c`, or `hi - lo` when none.
pub fn range_first_index(chars: &Vec<char>, lo: usize, hi: usize, c: char) -> (k: usize)
    requires
        lo <= hi <= chars@.len(),
    ensures
        k == first_index(chars@.subrange(lo as int, hi as int), c),
        lo + k <= hi,
{
    let ghost p = chars@.subrange(lo as int, hi as int);
    let mut i = lo;
    while i < hi && chars[i] != c
        invariant
            lo <= i <= hi <= chars@.len(),
            forall|j: int| lo <= j < i ==> chars@[j] != c,
        decreases hi - i,
    {
        i = i + 1;
    }
    proof {
        lemma_first_index_at(p, c, i - lo);
    }
    i - lo
}

/// `first_index` is the first position holding `c`.
pub proof fn lemma_first_index_at(s: Seq<char>, c: char, k: int)
    requires
        0 <= k <= s.len(),
        forall|j: int| 0 <= j < k ==> s[j] != c,
        k == s.len() || s[k] == c,
    ensures
        first_index(s, c) == k,
    decreases k,
{
    if k > 0 {
        lemma_first_index_at(s.drop_first(), c, k - 1);
    }
}

pub fn is_ascii_alpha_exec(c: char) -> (r: bool)
    ensures
        r == is_ascii_alpha(c),
{
    ('a' <= c && c <= 'z') || ('A' <= c && c <= 'Z')
}


/// Splits `s` at every `c`, keeping empty parts.
pub open spec fn split_char(s: Seq<char>, c: char) -> Seq<Seq<char>>
    decreases s.len(),
{
    if s.len() == 0 {
        seq![Seq::<char>::empty()]
    } else {
        let r = split_char(s.drop_last(), c);
        if s.last() == c {
            r.push(Seq::<char>::empty())
        } else {
            r.update(r.len() - 1, r.last().push(s.last()))
        }
    }
}

pub proof fn lemma_split_char_nonempty(s: Seq<char>, c: char)
    ensures
        split_char(s, c).len() >= 1,
    decreases s.len(),
{
    if s.len() > 0 {
        lemma_split_char_nonempty(s.drop_last(), c);
    }
}

/// The parts of `chars[lo..hi]` split at `c`, as ranges.
pub fn split_char_ranges(chars: &Vec<char>, c: char) -> (v: Vec<(usize, usize)>)
    ensures
        forall|k: int| 0 <= k < v@.len() ==> #[trigger] v@[k].0 <= v@[k].1 && v@[k].1 <= chars@.len(),
        v@.len() == split_char(chars@, c).len(),
        forall|k: int| 0 <= k < v@.len() ==> chars@.subrange(#[trigger] v@[k].0 as int, v@[k].1 as int)
            == split_char(chars@, c)[k],
{
    let n = chars.len();
    let ghost s = chars@;
    let mut v: Vec<(usize, usize)> = Vec::new();
    let mut start: usize = 0;
    let mut i: usize = 0;
    proof {
        assert(s.take(0) =~= Seq::<char>::empty());
        assert(s.subrange(0, 0) =~= Seq::<char>::empty());
    }
    while i < n
        invariant
            n == s.len(),
            s == chars@,
            start <= i <= n,
            forall|k: int| 0 <= k < v@.len() ==> #[trigger] v@[k].0 <= v@[k].1 && v@[k].1 <= n,
            split_char(s.take(i as int), c).len() == v@.len() + 1,
            split_char(s.take(i as int), c).last() == s.subrange(start as int, i as int),
            forall|k: int| 0 <= k < v@.len() ==> s.subrange(#[trigger] v@[k].0 as int, v@[k].1 as int)
                == split_char(s.take(i as int), c)[k],
        decreases n - i,
    {
        let ghost r = split_char(s.take(i as int), c);
        proof {
            assert(s.take(i + 1).drop_last() =~= s.take(i as int));
            assert(s.take(i + 1).last() == s[i as int]);
        }
        if chars[i] == c {
            v.push((start, i));
            start = i + 1;
            proof {
                assert(s.subrange(start as int, (i + 1) as int) =~= Seq::<char>::empty());
            }
        } else {
            proof {
                assert(s.subrange(start as int, i as int).push(s[i as int]) =~= s.subrange(
                    start as int,
                    (i + 1) as int,
                ));
            }
        }
        i = i + 1;
    }
    proof {
        assert(s.take(n as int) =~= s);
    }
    v.push((start, n));
    v
}

/// One past the last index of `c` in `chars` (0 when there is none).
pub fn last_index_exec(chars: &Vec<char>, c: char) -> (k: usize)
    ensures
        k as int == last_index(chars@, c) + 1,
        k <= chars@.len(),
{
    let mut k = chars.len();
    while k > 0 && chars[k - 1] != c
        invariant
            k <= chars@.len(),
            forall|j: int| k <= j < chars@.len() ==> chars@[j] != c,
        decreases k,
    {
        k = k - 1;
    }
    proof {
        lemma_last_index_at(chars@, c, k - 1);
    }
    k
}


/// The first `c` stands at `first_index` when there is one.
pub proof fn lemma_first_index_holds(s: Seq<char>, c: char)
    ensures
        first_index(s, c) <= s.len(),
        first_index(s, c) < s.len() ==> s[first_index(s, c) as int] == c,
        forall|j: int| 0 <= j < first_index(s, c) ==> s[j] != c,
    decreases s.len(),
{
    if s.len() > 0 && s[0] != c {
        lemma_first_index_holds(s.drop_first(), c);
        assert forall|j: int| 0 <= j < first_index(s, c) implies s[j] != c by {
            if j > 0 {
                assert(s[j] == s.drop_first()[j - 1]);
            }
        }
    }
}

/// The last `c` stands at `last_index` when there is one.
pub proof fn lemma_last_index_holds(s: Seq<char>, c: char)
    ensures
        -1 <= last_index(s, c) < s.len(),
        last_index(s, c) >= 0 ==> s[last_index(s, c)] == c,
        forall|j: int| last_index(s, c) < j < s.len() ==> s[j] != c,
    decreases s.len(),
{
    if s.len() > 0 && s.last() != c {
        lemma_last_index_holds(s.drop_last(), c);
        assert forall|j: int| last_index(s, c) < j < s.len() implies s[j] != c by {
            if j < s.len() - 1 {
                assert(s[j] == s.drop_last()[j]);
            }
        }
    }
}

/// Whether two texts are equal, character by character.
pub fn str_equal(a: &str, b: &str) -> (r: bool)
    ensures
        r == (a@ == b@),
{
    let x = chars_of(a);
    let y = chars_of(b);
    if x.len() != y.len() {
        return false;
    }
    let mut i: usize = 0;
    while i < x.len()
        invariant
            x@ == a@,
            y@ == b@,
            x@.len() == y@.len(),
            i <= x@.len(),
            forall|j: int| 0 <= j < i ==> x@[j] == y@[j],
        decreases x.len() - i,
    {
        if x[i] != y[i] {
            return false;
        }
        i = i + 1;
    }
    assert(a@ =~= b@);
    true
}

} // verus!
