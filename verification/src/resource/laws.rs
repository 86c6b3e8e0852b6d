//! What holds of the pool across its operations.
use vstd::prelude::*;

use crate::resource::assoc::to_map;
use crate::resource::pool::{
    after_grants, allot, can_take, covered, capacity_after, capacity_fits, get0, give_back,
    give_back_fits, grant_count, initial_capacity, other_entries, other_values, pool_inv,
    rest_after_capacity, take_spec, zero_kinds_tracked,
};
use crate::resource::{DetectableResourceValue, ResourceKey, ResourceRange};

verus! {

/// No kind has more left than its capacity.
pub open spec fn within_capacity(all: Map<ResourceKey, u64>, rest: Map<ResourceKey, u64>) -> bool {
    forall|k: ResourceKey| #[trigger] rest.contains_key(k) ==> rest[k] <= get0(all, k)
}

/// Giving back what was taken restores what was left.
pub proof fn law_release_undoes_take(rest: Map<ResourceKey, u64>, req: Map<ResourceKey, u64>)
    requires
        can_take(rest, req),
    ensures
        give_back_fits(take_spec(rest, req), req),
        give_back(take_spec(rest, req), req) == rest,
{
    assert(give_back(take_spec(rest, req), req) =~= rest);
}

/// Making room changes capacity and what is left by the same amount, so what is in
/// use stays as it was.
pub proof fn law_capacity_keeps_in_use(
    all: Map<ResourceKey, u64>,
    rest: Map<ResourceKey, u64>,
    req: Map<ResourceKey, u64>,
)
    requires
        capacity_fits(all, rest, req),
    ensures
        forall|k: ResourceKey|
            get0(capacity_after(all, req), k) - get0(rest_after_capacity(all, rest, req), k) == get0(
                all,
                k,
            ) - get0(rest, k),
{
}

/// After making room for a request, the capacity of each requested kind is at least
/// the amount requested.
pub proof fn law_capacity_covers_request(all: Map<ResourceKey, u64>, req: Map<ResourceKey, u64>)
    ensures
        forall|k: ResourceKey| #[trigger]
            req.contains_key(k) ==> capacity_after(all, req).contains_key(k) && req[k]
                <= capacity_after(all, req)[k],
{
}

/// A pool with nothing in use can grant a request once room was made for it.
pub proof fn law_idle_pool_grants(
    all: Map<ResourceKey, u64>,
    rest: Map<ResourceKey, u64>,
    req: Map<ResourceKey, u64>,
)
    requires
        pool_inv(all, rest),
        rest == all,
        zero_kinds_tracked(rest, req),
        capacity_fits(all, rest, req),
    ensures
        can_take(rest_after_capacity(all, rest, req), req),
{
}

/// Taking a request, and making room, keep every amount left within its capacity.
pub proof fn law_within_capacity_kept(
    all: Map<ResourceKey, u64>,
    rest: Map<ResourceKey, u64>,
    req: Map<ResourceKey, u64>,
)
    requires
        within_capacity(all, rest),
    ensures
        can_take(rest, req) ==> within_capacity(all, take_spec(rest, req)),
        capacity_fits(all, rest, req) ==> within_capacity(
            capacity_after(all, req),
            rest_after_capacity(all, rest, req),
        ),
{
}

/// Granting from a queue stops only at a request that cannot be granted: either the
/// whole queue was granted, or the first request left cannot be.
pub proof fn law_notify_stops_at_blocked(rest: Map<ResourceKey, u64>, qs: Seq<Map<ResourceKey, u64>>)
    ensures
        grant_count(rest, qs) <= qs.len(),
        grant_count(rest, qs) < qs.len() ==> !can_take(
            after_grants(rest, qs),
            qs[grant_count(rest, qs) as int],
        ),
    decreases qs.len(),
{
    if qs.len() > 0 && can_take(rest, qs[0]) {
        let tail = qs.drop_first();
        law_notify_stops_at_blocked(take_spec(rest, qs[0]), tail);
        let n = grant_count(take_spec(rest, qs[0]), tail);
        if n < tail.len() {
            assert(qs[(n + 1) as int] == tail[n as int]);
        }
    }
}

/// What is in use of a kind: its capacity less what is left.
pub open spec fn in_use(all: Map<ResourceKey, u64>, rest: Map<ResourceKey, u64>, k: ResourceKey) -> int {
    get0(all, k) - get0(rest, k)
}

/// Taking a request puts its amounts in use, kind by kind.
pub proof fn law_take_adds_in_use(
    all: Map<ResourceKey, u64>,
    rest: Map<ResourceKey, u64>,
    req: Map<ResourceKey, u64>,
)
    requires
        can_take(rest, req),
    ensures
        forall|k: ResourceKey|
            #[trigger] in_use(all, take_spec(rest, req), k) == in_use(all, rest, k) + get0(req, k),
{
}

/// Giving a request back takes its amounts out of use, kind by kind.
pub proof fn law_give_back_removes_in_use(
    all: Map<ResourceKey, u64>,
    rest: Map<ResourceKey, u64>,
    req: Map<ResourceKey, u64>,
)
    requires
        covered(rest, req),
        give_back_fits(rest, req),
    ensures
        forall|k: ResourceKey|
            #[trigger] in_use(all, give_back(rest, req), k) == in_use(all, rest, k) - get0(req, k),
{
}

/// Granting from a queue puts exactly the granted requests in use: what is in use
/// grows by the sum of the first `grant_count` requests.
pub proof fn law_grants_add_in_use(
    all: Map<ResourceKey, u64>,
    rest: Map<ResourceKey, u64>,
    qs: Seq<Map<ResourceKey, u64>>,
    k: ResourceKey,
)
    ensures
        in_use(all, after_grants(rest, qs), k) == in_use(all, rest, k) + amount_sum(
            qs.take(grant_count(rest, qs) as int),
            k,
        ),
    decreases qs.len(),
{
    if qs.len() > 0 && can_take(rest, qs[0]) {
        let tail = qs.drop_first();
        let t = take_spec(rest, qs[0]);
        law_grants_add_in_use(all, t, tail, k);
        law_take_adds_in_use(all, rest, qs[0]);
        let n = grant_count(t, tail);
        law_notify_stops_at_blocked(t, tail);
        assert(qs.take(n + 1int).drop_first() =~= tail.take(n as int));
        assert(qs.take(n + 1int)[0] == qs[0]);
    } else {
        assert(qs.take(0) =~= Seq::<Map<ResourceKey, u64>>::empty());
    }
}

/// The sum of the amounts of `k` over a list of requests.
pub open spec fn amount_sum(qs: Seq<Map<ResourceKey, u64>>, k: ResourceKey) -> int
    decreases qs.len(),
{
    if qs.len() == 0 {
        0
    } else {
        get0(qs[0], k) + amount_sum(qs.drop_first(), k)
    }
}

/// The sum over two lists joined is the sum of their sums.
pub proof fn lemma_amount_sum_concat(a: Seq<Map<ResourceKey, u64>>, b: Seq<Map<ResourceKey, u64>>, k: ResourceKey)
    ensures
        amount_sum(a + b, k) == amount_sum(a, k) + amount_sum(b, k),
    decreases a.len(),
{
    if a.len() > 0 {
        lemma_amount_sum_concat(a.drop_first(), b, k);
        assert((a + b).drop_first() =~= a.drop_first() + b);
    } else {
        assert(a + b =~= b);
    }
}

/// The accounting of a pool: of every kind, what is in use is the sum of what the
/// held requests hold.
pub open spec fn accounted(
    all: Map<ResourceKey, u64>,
    rest: Map<ResourceKey, u64>,
    held: Seq<Map<ResourceKey, u64>>,
) -> bool {
    forall|k: ResourceKey| #[trigger] in_use(all, rest, k) == amount_sum(held, k)
}

/// Taking a request keeps the accounting, with the request now held.
pub proof fn law_take_keeps_accounting(
    all: Map<ResourceKey, u64>,
    rest: Map<ResourceKey, u64>,
    held: Seq<Map<ResourceKey, u64>>,
    req: Map<ResourceKey, u64>,
)
    requires
        accounted(all, rest, held),
        can_take(rest, req),
    ensures
        accounted(all, take_spec(rest, req), held.push(req)),
{
    law_take_adds_in_use(all, rest, req);
    assert forall|k: ResourceKey| #[trigger] in_use(all, take_spec(rest, req), k) == amount_sum(
        held.push(req),
        k,
    ) by {
        lemma_amount_sum_concat(held, seq![req], k);
        assert(held.push(req) =~= held + seq![req]);
        assert(seq![req].drop_first() =~= Seq::<Map<ResourceKey, u64>>::empty());
        assert(amount_sum(Seq::<Map<ResourceKey, u64>>::empty(), k) == 0);
        assert(amount_sum(seq![req], k) == get0(req, k));
        assert(in_use(all, rest, k) == amount_sum(held, k));
        assert(in_use(all, take_spec(rest, req), k) == in_use(all, rest, k) + get0(req, k));
    }
}

/// Giving back a held request keeps the accounting, with the request no longer held.
pub proof fn law_release_keeps_accounting(
    all: Map<ResourceKey, u64>,
    rest: Map<ResourceKey, u64>,
    held: Seq<Map<ResourceKey, u64>>,
    i: int,
)
    requires
        accounted(all, rest, held),
        0 <= i < held.len(),
        covered(rest, held[i]),
        give_back_fits(rest, held[i]),
    ensures
        accounted(all, give_back(rest, held[i]), held.remove(i)),
{
    let req = held[i];
    law_give_back_removes_in_use(all, rest, req);
    assert forall|k: ResourceKey| #[trigger] in_use(all, give_back(rest, req), k) == amount_sum(
        held.remove(i),
        k,
    ) by {
        let a = held.take(i);
        let b = held.skip(i + 1);
        assert(held =~= a + (seq![req] + b));
        assert(held.remove(i) =~= a + b);
        lemma_amount_sum_concat(a, seq![req] + b, k);
        lemma_amount_sum_concat(seq![req], b, k);
        lemma_amount_sum_concat(a, b, k);
        assert(seq![req].drop_first() =~= Seq::<Map<ResourceKey, u64>>::empty());
        assert(amount_sum(Seq::<Map<ResourceKey, u64>>::empty(), k) == 0);
        assert(amount_sum(seq![req], k) == get0(req, k));
        assert(in_use(all, rest, k) == amount_sum(held, k));
        assert(in_use(all, give_back(rest, req), k) == in_use(all, rest, k) - get0(req, k));
    }
}

/// Making room keeps the accounting.
pub proof fn law_capacity_keeps_accounting(
    all: Map<ResourceKey, u64>,
    rest: Map<ResourceKey, u64>,
    held: Seq<Map<ResourceKey, u64>>,
    req: Map<ResourceKey, u64>,
)
    requires
        accounted(all, rest, held),
        capacity_fits(all, rest, req),
    ensures
        accounted(capacity_after(all, req), rest_after_capacity(all, rest, req), held),
{
    law_capacity_keeps_in_use(all, rest, req);
    assert forall|k: ResourceKey| #[trigger] in_use(
        capacity_after(all, req),
        rest_after_capacity(all, rest, req),
        k,
    ) == amount_sum(held, k) by {
        assert(in_use(all, rest, k) == amount_sum(held, k));
    }
}

/// Granting from a queue keeps the accounting, with the granted requests now held.
pub proof fn law_grants_keep_accounting(
    all: Map<ResourceKey, u64>,
    rest: Map<ResourceKey, u64>,
    held: Seq<Map<ResourceKey, u64>>,
    qs: Seq<Map<ResourceKey, u64>>,
)
    requires
        accounted(all, rest, held),
    ensures
        accounted(all, after_grants(rest, qs), held + qs.take(grant_count(rest, qs) as int)),
{
    assert forall|k: ResourceKey| #[trigger] in_use(all, after_grants(rest, qs), k) == amount_sum(
        held + qs.take(grant_count(rest, qs) as int),
        k,
    ) by {
        law_grants_add_in_use(all, rest, qs, k);
        lemma_amount_sum_concat(held, qs.take(grant_count(rest, qs) as int), k);
        assert(in_use(all, rest, k) == amount_sum(held, k));
    }
}

/// A range request is allotted, for each kind it names and for no other, as much of
/// that same kind as is left, capped at the range's maximum and raised to its minimum.
pub proof fn law_allot_per_kind(
    rest: Map<ResourceKey, u64>,
    req: Map<ResourceKey, ResourceRange>,
    k: ResourceKey,
)
    ensures
        allot(rest, req).contains_key(k) == req.contains_key(k),
        req.contains_key(k) ==> ({
            let left: u64 = if rest.contains_key(k) {
                rest[k]
            } else {
                0
            };
            let a = allot(rest, req)[k];
            let lo = req[k].minimum;
            let hi = req[k].maximum;
            &&& lo <= a
            &&& (lo <= left && left <= hi ==> a == left)
            &&& (left < lo ==> a == lo)
            &&& (hi < left ==> a == if lo <= hi {
                hi
            } else {
                lo
            })
        }),
{
}

/// What is allotted of a kind depends on what is left of that kind only: two states
/// that leave the same amount of `k` allot the same amount of `k`.
pub proof fn law_allot_local(
    rest1: Map<ResourceKey, u64>,
    rest2: Map<ResourceKey, u64>,
    req: Map<ResourceKey, ResourceRange>,
    k: ResourceKey,
)
    requires
        req.contains_key(k),
        rest1.contains_key(k) == rest2.contains_key(k),
        rest1.contains_key(k) ==> rest1[k] == rest2[k],
    ensures
        allot(rest1, req)[k] == allot(rest2, req)[k],
{
}

/// The last entry of a list for a key gives that key's value.
proof fn lemma_to_map_last<V>(l: Seq<(ResourceKey, V)>, i: int)
    requires
        0 <= i < l.len(),
        forall|j: int| i < j < l.len() ==> (#[trigger] l[j]).0 != l[i].0,
    ensures
        to_map(l).contains_key(l[i].0),
        to_map(l)[l[i].0] == l[i].1,
    decreases l.len(),
{
    if i < l.len() - 1 {
        let d = l.drop_last();
        assert forall|j: int| i < j < d.len() implies (#[trigger] d[j]).0 != d[i].0 by {
            assert(d[j] == l[j]);
        }
        lemma_to_map_last(d, i);
        assert(l[l.len() - 1].0 != l[i].0);
        assert(d[i] == l[i]);
    }
}

/// A kind named by the user gets the amount given for it by its last entry, or one
/// unit when that entry leaves it to the heuristics.
pub proof fn law_named_capacity(
    cpu: u64,
    fs_io: u64,
    gpu: u64,
    memory: u64,
    network: u64,
    other: Seq<(String, DetectableResourceValue)>,
    i: int,
)
    requires
        0 <= i < other.len(),
        forall|j: int| i < j < other.len() ==> (#[trigger] other[j]).0@ != other[i].0@,
    ensures
        ({
            let caps = initial_capacity(cpu, fs_io, gpu, memory, network, other_values(other));
            let key = ResourceKey::Other(other[i].0@);
            &&& caps.contains_key(key)
            &&& caps[key] == match other[i].1 {
                DetectableResourceValue::Value(v) => v,
                DetectableResourceValue::Heuristics => 1u64,
            }
        }),
{
    let l = other_entries(other_values(other));
    assert(l.len() == other.len());
    assert forall|j: int| 0 <= j < l.len() implies #[trigger] l[j] == (
        ResourceKey::Other(other[j].0@),
        other_values(other)[j].1,
    ) by {}
    assert forall|j: int| i < j < l.len() implies (#[trigger] l[j]).0 != l[i].0 by {
        assert(l[j].0 == ResourceKey::Other(other[j].0@));
        assert(other[j].0@ != other[i].0@);
    }
    lemma_to_map_last(l, i);
}

/// A pool starts with the given capacity of each built-in kind.
pub proof fn law_builtin_capacity(
    cpu: u64,
    fs_io: u64,
    gpu: u64,
    memory: u64,
    network: u64,
    other: Seq<(String, u64)>,
)
    ensures
        ({
            let caps = initial_capacity(cpu, fs_io, gpu, memory, network, other);
            &&& caps[ResourceKey::Processor] == cpu
            &&& caps[ResourceKey::DiskIO] == fs_io
            &&& caps[ResourceKey::GPU] == gpu
            &&& caps[ResourceKey::Memory] == memory
            &&& caps[ResourceKey::Network] == network
        }),
{
}

} // verus!
