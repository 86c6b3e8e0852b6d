//! Association lists keyed by resource kind, and the maps they stand for.
use vstd::prelude::*;

use crate::resource::{ResourceKey, ResourceType};

verus! {

/// No key occurs twice.
pub open spec fn keys_distinct<V>(l: Seq<(ResourceKey, V)>) -> bool {
    forall|i: int, j: int| 0 <= i < l.len() && 0 <= j < l.len() && i != j ==> l[i].0 != l[j].0
}

/// The map that a list stands for.
pub open spec fn to_map<V>(l: Seq<(ResourceKey, V)>) -> Map<ResourceKey, V>
    decreases l.len(),
{
    if l.len() == 0 {
        Map::empty()
    } else {
        to_map(l.drop_last()).insert(l.last().0, l.last().1)
    }
}

/// The keys and values of an executable list.
pub open spec fn entries<V>(v: Seq<(ResourceType, V)>) -> Seq<(ResourceKey, V)> {
    v.map_values(|e: (ResourceType, V)| (e.0@, e.1))
}

pub proof fn lemma_to_map_domain<V>(l: Seq<(ResourceKey, V)>)
    ensures
        to_map(l).dom().finite(),
        forall|k: ResourceKey|
            to_map(l).contains_key(k) <==> exists|i: int| 0 <= i < l.len() && #[trigger] l[i].0 == k,
    decreases l.len(),
{
    if l.len() > 0 {
        let d = l.drop_last();
        lemma_to_map_domain(d);
        assert forall|k: ResourceKey|
            to_map(l).contains_key(k) <==> exists|i: int| 0 <= i < l.len() && #[trigger] l[i].0 == k by {
            if to_map(l).contains_key(k) {
                if k == l.last().0 {
                    assert(l[l.len() - 1].0 == k);
                } else {
                    let i = choose|i: int| 0 <= i < d.len() && #[trigger] d[i].0 == k;
                    assert(l[i].0 == k);
                }
            }
            if exists|i: int| 0 <= i < l.len() && #[trigger] l[i].0 == k {
                let i = choose|i: int| 0 <= i < l.len() && #[trigger] l[i].0 == k;
                if i < l.len() - 1 {
                    assert(d[i].0 == k);
                }
            }
        }
    }
}

/// With distinct keys, each entry is what the map holds for its key.
pub proof fn lemma_to_map_index<V>(l: Seq<(ResourceKey, V)>, i: int)
    requires
        keys_distinct(l),
        0 <= i < l.len(),
    ensures
        to_map(l).contains_key(l[i].0),
        to_map(l)[l[i].0] == l[i].1,
    decreases l.len(),
{
    let d = l.drop_last();
    if i < l.len() - 1 {
        assert(keys_distinct(d)) by {
            assert forall|a: int, b: int| 0 <= a < d.len() && 0 <= b < d.len() && a != b implies d[a].0
                != d[b].0 by {
                assert(d[a] == l[a] && d[b] == l[b]);
            }
        }
        lemma_to_map_index(d, i);
        assert(l[l.len() - 1].0 != l[i].0);
        assert(d[i] == l[i]);
    }
}

/// Replacing the value of an entry replaces it in the map.
pub proof fn lemma_to_map_update<V>(l: Seq<(ResourceKey, V)>, i: int, v: V)
    requires
        keys_distinct(l),
        0 <= i < l.len(),
    ensures
        keys_distinct(l.update(i, (l[i].0, v))),
        to_map(l.update(i, (l[i].0, v))) == to_map(l).insert(l[i].0, v),
    decreases l.len(),
{
    let u = l.update(i, (l[i].0, v));
    assert(keys_distinct(u)) by {
        assert forall|a: int, b: int| 0 <= a < u.len() && 0 <= b < u.len() && a != b implies u[a].0
            != u[b].0 by {
            assert(u[a].0 == l[a].0 && u[b].0 == l[b].0);
        }
    }
    let d = l.drop_last();
    assert(keys_distinct(d)) by {
        assert forall|a: int, b: int| 0 <= a < d.len() && 0 <= b < d.len() && a != b implies d[a].0
            != d[b].0 by {
            assert(d[a] == l[a] && d[b] == l[b]);
        }
    }
    if i == l.len() - 1 {
        assert(u.drop_last() =~= d);
        assert(to_map(l).insert(l[i].0, v) =~= to_map(d).insert(l[i].0, v));
    } else {
        lemma_to_map_update(d, i, v);
        assert(u.drop_last() =~= d.update(i, (l[i].0, v)));
        assert(u.last() == l.last());
        assert(l.last().0 != l[i].0);
        assert(to_map(u) =~= to_map(l).insert(l[i].0, v));
    }
}

/// Adding an entry with a new key adds it to the map.
pub proof fn lemma_to_map_push<V>(l: Seq<(ResourceKey, V)>, k: ResourceKey, v: V)
    requires
        keys_distinct(l),
        !to_map(l).contains_key(k),
    ensures
        keys_distinct(l.push((k, v))),
        to_map(l.push((k, v))) == to_map(l).insert(k, v),
{
    lemma_to_map_domain(l);
    let p = l.push((k, v));
    assert(p.drop_last() =~= l);
    assert(keys_distinct(p)) by {
        assert forall|a: int, b: int| 0 <= a < p.len() && 0 <= b < p.len() && a != b implies p[a].0
            != p[b].0 by {
            if a == l.len() {
                assert(l[b].0 != k);
            } else if b == l.len() {
                assert(l[a].0 != k);
            } else {
                assert(p[a] == l[a] && p[b] == l[b]);
            }
        }
    }
}

pub proof fn lemma_entries_push<V>(v: Seq<(ResourceType, V)>, e: (ResourceType, V))
    ensures
        entries(v.push(e)) == entries(v).push((e.0@, e.1)),
{
    assert(entries(v.push(e)) =~= entries(v).push((e.0@, e.1)));
}

pub proof fn lemma_entries_update<V>(v: Seq<(ResourceType, V)>, i: int, e: (ResourceType, V))
    requires
        0 <= i < v.len(),
    ensures
        entries(v.update(i, e)) == entries(v).update(i, (e.0@, e.1)),
{
    assert(entries(v.update(i, e)) =~= entries(v).update(i, (e.0@, e.1)));
}

/// The map of a prefix one entry longer.
pub proof fn lemma_to_map_take_step<V>(l: Seq<(ResourceKey, V)>, i: int)
    requires
        keys_distinct(l),
        0 <= i < l.len(),
    ensures
        !to_map(l.take(i)).contains_key(l[i].0),
        to_map(l.take(i + 1)) == to_map(l.take(i)).insert(l[i].0, l[i].1),
{
    let p = l.take(i);
    lemma_to_map_domain(p);
    assert(l.take(i + 1).drop_last() =~= p);
    if to_map(p).contains_key(l[i].0) {
        let j = choose|j: int| 0 <= j < p.len() && #[trigger] p[j].0 == l[i].0;
        assert(p[j] == l[j]);
    }
}

/// The whole list is its longest prefix.
pub proof fn lemma_take_all<V>(l: Seq<(ResourceKey, V)>)
    ensures
        l.take(l.len() as int) == l,
{
    assert(l.take(l.len() as int) =~= l);
}

} // verus!
