//! The resource pool: capacities, what is left, and the decisions on requests.
use vstd::prelude::*;

use crate::resource::assoc::{
    entries, keys_distinct, lemma_entries_push, lemma_take_all, lemma_to_map_domain, lemma_to_map_index,
    lemma_to_map_take_step, to_map,
};
use crate::resource::heuristics::{
    determine_cpu_capacity, determine_disk_io_capacity, determine_gpu_capacity,
    determine_memory_capacity, determine_network_capacity, SystemSnapshot,
};
use crate::resource::{
    find_key, insert_key, minimums, DetectableResourceValue, ResourceKey, ResourceRange, ResourceRangeRequest,
    ResourceRequest, ResourceType,
};

verus! {

/// The value of `k` in `m`, or 0.
pub open spec fn get0(m: Map<ResourceKey, u64>, k: ResourceKey) -> u64 {
    if m.contains_key(k) {
        m[k]
    } else {
        0
    }
}

/// Whether `k` is requested above the current capacity.
pub open spec fn grows(all: Map<ResourceKey, u64>, req: Map<ResourceKey, u64>, k: ResourceKey) -> bool {
    req.contains_key(k) && get0(all, k) < req[k]
}

/// The capacities after making room for `req` at least once.
pub open spec fn capacity_after(all: Map<ResourceKey, u64>, req: Map<ResourceKey, u64>) -> Map<
    ResourceKey,
    u64,
> {
    Map::new(
        |k: ResourceKey| all.contains_key(k) || req.contains_key(k),
        |k: ResourceKey|
            if grows(all, req, k) {
                req[k]
            } else {
                get0(all, k)
            },
    )
}

/// What is left after making room for `req`: each grown capacity adds its growth.
pub open spec fn rest_after_capacity(
    all: Map<ResourceKey, u64>,
    rest: Map<ResourceKey, u64>,
    req: Map<ResourceKey, u64>,
) -> Map<ResourceKey, u64> {
    Map::new(
        |k: ResourceKey| rest.contains_key(k) || grows(all, req, k),
        |k: ResourceKey|
            if grows(all, req, k) {
                (get0(rest, k) + (req[k] - get0(all, k))) as u64
            } else {
                rest[k]
            },
    )
}

/// Making room for `req` does not overflow what is left.
pub open spec fn capacity_fits(
    all: Map<ResourceKey, u64>,
    rest: Map<ResourceKey, u64>,
    req: Map<ResourceKey, u64>,
) -> bool {
    forall|k: ResourceKey|
        grows(all, req, k) ==> get0(rest, k) + (req[k] - get0(all, k)) <= u64::MAX
}

/// Every requested kind is tracked in `rest`.
pub open spec fn covered(rest: Map<ResourceKey, u64>, req: Map<ResourceKey, u64>) -> bool {
    forall|k: ResourceKey| req.contains_key(k) ==> rest.contains_key(k)
}

/// Enough of every requested kind is left.
pub open spec fn can_take(rest: Map<ResourceKey, u64>, req: Map<ResourceKey, u64>) -> bool {
    forall|k: ResourceKey| req.contains_key(k) ==> rest.contains_key(k) && req[k] <= rest[k]
}

/// What is left after taking `req`.
pub open spec fn take_spec(rest: Map<ResourceKey, u64>, req: Map<ResourceKey, u64>) -> Map<
    ResourceKey,
    u64,
> {
    Map::new(
        |k: ResourceKey| rest.contains_key(k),
        |k: ResourceKey|
            if req.contains_key(k) {
                (rest[k] - req[k]) as u64
            } else {
                rest[k]
            },
    )
}

/// Giving `req` back does not overflow.
pub open spec fn give_back_fits(rest: Map<ResourceKey, u64>, req: Map<ResourceKey, u64>) -> bool {
    forall|k: ResourceKey| req.contains_key(k) ==> rest[k] + req[k] <= u64::MAX
}

/// What is left after giving `req` back.
pub open spec fn give_back(rest: Map<ResourceKey, u64>, req: Map<ResourceKey, u64>) -> Map<
    ResourceKey,
    u64,
> {
    Map::new(
        |k: ResourceKey| rest.contains_key(k),
        |k: ResourceKey|
            if req.contains_key(k) {
                (rest[k] + req[k]) as u64
            } else {
                rest[k]
            },
    )
}

/// The amounts of each request of a queue.
pub open spec fn queue_amounts(q: Seq<ResourceRequest<u64>>) -> Seq<Map<ResourceKey, u64>> {
    q.map_values(|r: ResourceRequest<u64>| r.amounts())
}

/// How many requests from the front of `qs` are granted one after the other,
/// stopping at the first that cannot be.
pub open spec fn grant_count(rest: Map<ResourceKey, u64>, qs: Seq<Map<ResourceKey, u64>>) -> nat
    decreases qs.len(),
{
    if qs.len() == 0 {
        0
    } else if can_take(rest, qs[0]) {
        1 + grant_count(take_spec(rest, qs[0]), qs.drop_first())
    } else {
        0
    }
}

/// What is left after granting the front of `qs` as far as it goes.
pub open spec fn after_grants(rest: Map<ResourceKey, u64>, qs: Seq<Map<ResourceKey, u64>>) -> Map<
    ResourceKey,
    u64,
>
    decreases qs.len(),
{
    if qs.len() == 0 {
        rest
    } else if can_take(rest, qs[0]) {
        after_grants(take_spec(rest, qs[0]), qs.drop_first())
    } else {
        rest
    }
}

/// Every kind of every queued request is tracked.
pub open spec fn queue_covered(rest: Map<ResourceKey, u64>, q: Seq<ResourceRequest<u64>>) -> bool {
    forall|i: int| 0 <= i < q.len() ==> covered(rest, #[trigger] q[i].amounts())
}

/// Every requested kind with a zero amount is tracked already. (A zero amount of a
/// kind that nothing tracks never gets a place in what is left.)
pub open spec fn zero_kinds_tracked(rest: Map<ResourceKey, u64>, req: Map<ResourceKey, u64>) -> bool {
    forall|k: ResourceKey| req.contains_key(k) && req[k] == 0 ==> rest.contains_key(k)
}

/// The amount granted of a range when `available` is left: as much as is left,
/// within the range.
pub open spec fn clamp_range(available: u64, range: ResourceRange) -> u64 {
    let x = if available <= range.maximum {
        available
    } else {
        range.maximum
    };
    if range.minimum <= x {
        x
    } else {
        range.minimum
    }
}

/// The concrete amounts for a range request, given what is left.
pub open spec fn allot(rest: Map<ResourceKey, u64>, req: Map<ResourceKey, ResourceRange>) -> Map<
    ResourceKey,
    u64,
> {
    Map::new(
        |k: ResourceKey| req.contains_key(k),
        |k: ResourceKey| clamp_range(get0(rest, k), req[k]),
    )
}

/// After making room, every requested kind is tracked.
pub proof fn lemma_capacity_covers(
    all: Map<ResourceKey, u64>,
    rest: Map<ResourceKey, u64>,
    req: Map<ResourceKey, u64>,
)
    requires
        pool_inv(all, rest),
        zero_kinds_tracked(rest, req),
    ensures
        covered(rest_after_capacity(all, rest, req), req),
        forall|k: ResourceKey| #[trigger]
            rest.contains_key(k) ==> rest_after_capacity(all, rest, req).contains_key(k),
{
}

/// The entries of the kinds a user names, by name.
pub open spec fn other_entries(other: Seq<(String, u64)>) -> Seq<(ResourceKey, u64)> {
    other.map_values(|e: (String, u64)| (ResourceKey::Other(e.0@), e.1))
}

/// The capacities a pool starts with: the named kinds, then the built-in ones.
pub open spec fn initial_capacity(
    cpu: u64,
    fs_io: u64,
    gpu: u64,
    memory: u64,
    network: u64,
    other: Seq<(String, u64)>,
) -> Map<ResourceKey, u64> {
    to_map(other_entries(other)).insert(ResourceKey::Processor, cpu).insert(
        ResourceKey::DiskIO,
        fs_io,
    ).insert(ResourceKey::GPU, gpu).insert(ResourceKey::Memory, memory).insert(
        ResourceKey::Network,
        network,
    )
}

/// The value a detectable amount stands for, with `detected` for the heuristics.
pub open spec fn detected_or(v: DetectableResourceValue, detected: u64) -> u64 {
    match v {
        DetectableResourceValue::Value(x) => x,
        DetectableResourceValue::Heuristics => detected,
    }
}

/// The named kinds with their values; a kind left to the heuristics gets one unit.
pub open spec fn other_values(other: Seq<(String, DetectableResourceValue)>) -> Seq<(String, u64)> {
    other.map_values(|e: (String, DetectableResourceValue)| (e.0, detected_or(e.1, 1)))
}

/// A copy of a list of kinds and amounts.
fn copy_list(list: &Vec<(ResourceType, u64)>) -> (r: Vec<(ResourceType, u64)>)
    ensures
        entries(r@) == entries(list@),
{
    let mut r: Vec<(ResourceType, u64)> = Vec::new();
    let mut i: usize = 0;
    while i < list.len()
        invariant
            i <= list@.len(),
            entries(r@) == entries(list@).take(i as int),
        decreases list.len() - i,
    {
        let ghost before = r@;
        r.push((list[i].0.duplicate(), list[i].1));
        proof {
            lemma_entries_push(before, r@.last());
            assert(entries(list@).take(i + 1) =~= entries(list@).take(i as int).push(
                entries(list@)[i as int],
            ));
        }
        i = i + 1;
    }
    assert(entries(list@).take(i as int) =~= entries(list@));
    r
}

/// Makes room for `count` of `kind` in a pair of capacity and rest lists.
fn grow_entry(
    all: &mut Vec<(ResourceType, u64)>,
    rest: &mut Vec<(ResourceType, u64)>,
    kind: &ResourceType,
    count: u64,
)
    requires
        keys_distinct(entries(old(all)@)),
        keys_distinct(entries(old(rest)@)),
        get0(to_map(entries(old(all)@)), kind@) < count ==> get0(to_map(entries(old(rest)@)), kind@)
            + (count - get0(to_map(entries(old(all)@)), kind@)) <= u64::MAX,
    ensures
        keys_distinct(entries(final(all)@)),
        keys_distinct(entries(final(rest)@)),
        ({
            let a0 = to_map(entries(old(all)@));
            let r0 = to_map(entries(old(rest)@));
            let a = get0(a0, kind@);
            &&& to_map(entries(final(all)@)) == a0.insert(
                kind@,
                if a < count {
                    count
                } else {
                    a
                },
            )
            &&& to_map(entries(final(rest)@)) == if a < count {
                r0.insert(kind@, (get0(r0, kind@) + (count - a)) as u64)
            } else {
                r0
            }
        }),
{
    let a: u64 = match find_key(all, kind) {
        Some(j) => all[j].1,
        None => 0,
    };
    if a < count {
        let r: u64 = match find_key(rest, kind) {
            Some(j) => rest[j].1,
            None => 0,
        };
        insert_key(all, kind.duplicate(), count);
        insert_key(rest, kind.duplicate(), r + (count - a));
    } else {
        let ghost a0 = to_map(entries(all@));
        insert_key(all, kind.duplicate(), a);
        proof {
            if a0.contains_key(kind@) {
                assert(a0.insert(kind@, a) =~= a0);
            }
        }
    }
}

/// What became of a range request.
pub enum RangeOutcome {
    /// The concrete amounts were taken; so many queued requests were granted after.
    Granted(ResourceRequest<u64>, usize),
    /// The minimums joined the queue.
    Queued,
}

/// The capacities and what is left of every kind of resource.
pub struct RawResourcePool {
    all_resources: Vec<(ResourceType, u64)>,
    rest_resources: Vec<(ResourceType, u64)>,
}

/// The invariant of a pool state, on its maps.
pub open spec fn pool_inv(all: Map<ResourceKey, u64>, rest: Map<ResourceKey, u64>) -> bool {
    &&& all.contains_key(ResourceKey::Processor)
    &&& forall|k: ResourceKey| rest.contains_key(k) ==> all.contains_key(k)
    &&& forall|k: ResourceKey| all.contains_key(k) && !rest.contains_key(k) ==> all[k] == 0
}

impl RawResourcePool {
    #[verifier::type_invariant]
    spec fn inv(self) -> bool {
        &&& keys_distinct(entries(self.all_resources@))
        &&& keys_distinct(entries(self.rest_resources@))
        &&& pool_inv(self.all(), self.rest())
    }

    /// The capacity of each kind.
    pub closed spec fn all(self) -> Map<ResourceKey, u64> {
        to_map(entries(self.all_resources@))
    }

    /// What is left of each kind.
    pub closed spec fn rest(self) -> Map<ResourceKey, u64> {
        to_map(entries(self.rest_resources@))
    }

    /// A pool with the given capacities, all of them left.
    pub fn new(
        cpu_capacity: u64,
        fs_io_capacity: u64,
        gpu_capacity: u64,
        memory_capacity: u64,
        network_capacity: u64,
        other_capacity: Vec<(String, u64)>,
    ) -> (r: Self)
        ensures
            r.all() == initial_capacity(
                cpu_capacity,
                fs_io_capacity,
                gpu_capacity,
                memory_capacity,
                network_capacity,
                other_capacity@,
            ),
            r.rest() == r.all(),
    {
        let ghost oe = other_entries(other_capacity@);
        let mut all_resources: Vec<(ResourceType, u64)> = Vec::new();
        assert(entries(all_resources@) =~= Seq::<(ResourceKey, u64)>::empty());
        let mut i: usize = 0;
        while i < other_capacity.len()
            invariant
                oe == other_entries(other_capacity@),
                i <= other_capacity@.len(),
                keys_distinct(entries(all_resources@)),
                to_map(entries(all_resources@)) == to_map(oe.take(i as int)),
            decreases other_capacity.len() - i,
        {
            proof {
                assert(oe.take(i + 1).drop_last() =~= oe.take(i as int));
                assert(oe[i as int] == (
                    ResourceKey::Other(other_capacity@[i as int].0@),
                    other_capacity@[i as int].1,
                ));
            }
            insert_key(
                &mut all_resources,
                ResourceType::Other(other_capacity[i].0.clone()),
                other_capacity[i].1,
            );
            i = i + 1;
        }
        assert(oe.take(i as int) =~= oe);
        insert_key(&mut all_resources, ResourceType::Processor, cpu_capacity);
        insert_key(&mut all_resources, ResourceType::DiskIO, fs_io_capacity);
        insert_key(&mut all_resources, ResourceType::GPU, gpu_capacity);
        insert_key(&mut all_resources, ResourceType::Memory, memory_capacity);
        insert_key(&mut all_resources, ResourceType::Network, network_capacity);
        let rest_resources = copy_list(&all_resources);
        RawResourcePool { all_resources, rest_resources }
    }

    /// A pool whose capacities are given or worked out from the machine.
    pub fn new_with_heuristics(
        system: &SystemSnapshot,
        cpu_capacity: DetectableResourceValue,
        fs_io_capacity: DetectableResourceValue,
        gpu_capacity: DetectableResourceValue,
        memory_capacity: DetectableResourceValue,
        network_capacity: DetectableResourceValue,
        other_capacity: Vec<(String, DetectableResourceValue)>,
    ) -> (r: Self)
        requires
            system.cpu_count * 4 <= usize::MAX,
        ensures
            r.all() == initial_capacity(
                detected_or(cpu_capacity, system.cpu_count as u64),
                detected_or(
                    fs_io_capacity,
                    if system.cpu_count * 2 < 4 {
                        4
                    } else {
                        (system.cpu_count * 2) as u64
                    },
                ),
                detected_or(gpu_capacity, 0),
                detected_or(memory_capacity, system.total_memory),
                detected_or(
                    network_capacity,
                    if system.cpu_count * 4 < 8 {
                        8
                    } else {
                        (system.cpu_count * 4) as u64
                    },
                ),
                other_values(other_capacity@),
            ),
            r.rest() == r.all(),
    {
        let cpu = match cpu_capacity {
            DetectableResourceValue::Value(v) => v,
            DetectableResourceValue::Heuristics => determine_cpu_capacity(system),
        };
        let fs_io = match fs_io_capacity {
            DetectableResourceValue::Value(v) => v,
            DetectableResourceValue::Heuristics => determine_disk_io_capacity(system),
        };
        let gpu = match gpu_capacity {
            DetectableResourceValue::Value(v) => v,
            DetectableResourceValue::Heuristics => determine_gpu_capacity(system),
        };
        let memory = match memory_capacity {
            DetectableResourceValue::Value(v) => v,
            DetectableResourceValue::Heuristics => determine_memory_capacity(system),
        };
        let network = match network_capacity {
            DetectableResourceValue::Value(v) => v,
            DetectableResourceValue::Heuristics => determine_network_capacity(system),
        };
        let mut other: Vec<(String, u64)> = Vec::new();
        let mut i: usize = 0;
        while i < other_capacity.len()
            invariant
                i <= other_capacity@.len(),
                other@ == other_values(other_capacity@).take(i as int),
            decreases other_capacity.len() - i,
        {
            let value: u64 = match other_capacity[i].1 {
                DetectableResourceValue::Value(v) => v,
                DetectableResourceValue::Heuristics => 1,
            };
            other.push((other_capacity[i].0.clone(), value));
            proof {
                assert(other@ =~= other_values(other_capacity@).take(i + 1));
            }
            i = i + 1;
        }
        assert(other_values(other_capacity@).take(i as int) =~= other_values(other_capacity@));
        Self::new(cpu, fs_io, gpu, memory, network, other)
    }

    /// A pool with no capacity but for zero processors.
    fn placeholder() -> (r: Self)
        ensures
            r.all() == Map::<ResourceKey, u64>::empty().insert(ResourceKey::Processor, 0),
            r.rest() == r.all(),
    {
        let mut all_resources: Vec<(ResourceType, u64)> = Vec::new();
        let ghost e = entries(all_resources@);
        assert(e =~= Seq::<(ResourceKey, u64)>::empty());
        insert_key(&mut all_resources, ResourceType::Processor, 0);
        let mut rest_resources: Vec<(ResourceType, u64)> = Vec::new();
        assert(entries(rest_resources@) =~= Seq::<(ResourceKey, u64)>::empty());
        insert_key(&mut rest_resources, ResourceType::Processor, 0);
        RawResourcePool { all_resources, rest_resources }
    }

    /// Makes sure that `request` can be granted at least once: every capacity below
    /// the requested amount grows to it, and what is left grows by as much.
    pub fn make_sure_capacity(&mut self, request: &ResourceRequest<u64>)
        requires
            capacity_fits(old(self).all(), old(self).rest(), request.amounts()),
        ensures
            final(self).all() == capacity_after(old(self).all(), request.amounts()),
            final(self).rest() == rest_after_capacity(
                old(self).all(),
                old(self).rest(),
                request.amounts(),
            ),
    {
        proof {
            use_type_invariant(&*self);
        }
        let ghost all0 = self.all();
        let ghost rest0 = self.rest();
        let mut tmp = Self::placeholder();
        std::mem::swap(self, &mut tmp);
        proof {
            use_type_invariant(&tmp);
        }
        let RawResourcePool { mut all_resources, mut rest_resources } = tmp;
        let list = request.entries();
        let ghost es = request.listing();
        let ghost req = request.amounts();
        let mut i: usize = 0;
        while i < list.len()
            invariant
                entries(list@) == es,
                keys_distinct(es),
                to_map(es) == req,
                i <= list@.len(),
                keys_distinct(entries(all_resources@)),
                keys_distinct(entries(rest_resources@)),
                capacity_fits(all0, rest0, req),
                to_map(entries(all_resources@)) == capacity_after(all0, to_map(es.take(i as int))),
                to_map(entries(rest_resources@)) == rest_after_capacity(
                    all0,
                    rest0,
                    to_map(es.take(i as int)),
                ),
            decreases list.len() - i,
        {
            let ghost m = to_map(es.take(i as int));
            let ghost t = es[i as int].0;
            let ghost c = es[i as int].1;
            proof {
                lemma_to_map_take_step(es, i as int);
                assert(list@[i as int].0@ == t && list@[i as int].1 == c);
                lemma_to_map_index(es, i as int);
                assert(get0(capacity_after(all0, m), t) == get0(all0, t));
                assert(get0(rest_after_capacity(all0, rest0, m), t) == get0(rest0, t));
                assert(grows(all0, req, t) == (get0(all0, t) < c));
            }
            grow_entry(&mut all_resources, &mut rest_resources, &list[i].0, list[i].1);
            proof {
                let m1 = m.insert(t, c);
                assert(capacity_after(all0, m1) =~= capacity_after(all0, m).insert(
                    t,
                    if get0(all0, t) < c {
                        c
                    } else {
                        get0(all0, t)
                    },
                ));
                if get0(all0, t) < c {
                    assert(rest_after_capacity(all0, rest0, m1) =~= rest_after_capacity(
                        all0,
                        rest0,
                        m,
                    ).insert(t, (get0(rest0, t) + (c - get0(all0, t))) as u64));
                } else {
                    assert(rest_after_capacity(all0, rest0, m1) =~= rest_after_capacity(
                        all0,
                        rest0,
                        m,
                    ));
                }
            }
            i = i + 1;
        }
        proof {
            lemma_take_all(es);
            let a1 = capacity_after(all0, req);
            let r1 = rest_after_capacity(all0, rest0, req);
            assert forall|k: ResourceKey| r1.contains_key(k) implies a1.contains_key(k) by {}
            assert forall|k: ResourceKey| a1.contains_key(k) && !r1.contains_key(k) implies a1[k]
                == 0 by {}
        }
        *self = RawResourcePool { all_resources, rest_resources };
    }

    /// Whether enough of every requested kind is left; every kind must be tracked.
    fn can_take_exec(&self, request: &ResourceRequest<u64>) -> (r: bool)
        requires
            covered(self.rest(), request.amounts()),
        ensures
            r == can_take(self.rest(), request.amounts()),
    {
        proof {
            use_type_invariant(self);
        }
        let list = request.entries();
        let ghost es = request.listing();
        let ghost rest0 = self.rest();
        let mut i: usize = 0;
        while i < list.len()
            invariant
                entries(list@) == es,
                keys_distinct(es),
                to_map(es) == request.amounts(),
                keys_distinct(entries(self.rest_resources@)),
                to_map(entries(self.rest_resources@)) == rest0,
                covered(rest0, request.amounts()),
                i <= list@.len(),
                forall|j: int| 0 <= j < i ==> es[j].1 <= rest0[#[trigger] es[j].0],
            decreases list.len() - i,
        {
            proof {
                lemma_to_map_index(es, i as int);
                assert(list@[i as int].0@ == es[i as int].0 && list@[i as int].1 == es[i as int].1);
            }
            match find_key(&self.rest_resources, &list[i].0) {
                Some(j) => {
                    if self.rest_resources[j].1 < list[i].1 {
                        return false;
                    }
                },
                None => {
                    return false;
                },
            }
            i = i + 1;
        }
        proof {
            lemma_to_map_domain(es);
            assert forall|k: ResourceKey| request.amounts().contains_key(k) implies rest0.contains_key(
                k,
            ) && request.amounts()[k] <= rest0[k] by {
                let j = choose|j: int| 0 <= j < es.len() && #[trigger] es[j].0 == k;
                lemma_to_map_index(es, j);
            }
        }
        true
    }

    /// Takes every requested amount from what is left (`take`), or gives it back.
    fn shift_rest(&mut self, request: &ResourceRequest<u64>, take: bool)
        requires
            take ==> can_take(old(self).rest(), request.amounts()),
            !take ==> covered(old(self).rest(), request.amounts()) && give_back_fits(
                old(self).rest(),
                request.amounts(),
            ),
        ensures
            final(self).all() == old(self).all(),
            final(self).rest() == if take {
                take_spec(old(self).rest(), request.amounts())
            } else {
                give_back(old(self).rest(), request.amounts())
            },
    {
        proof {
            use_type_invariant(&*self);
        }
        let ghost all0 = self.all();
        let ghost rest0 = self.rest();
        let ghost req = request.amounts();
        let mut tmp = Self::placeholder();
        std::mem::swap(self, &mut tmp);
        proof {
            use_type_invariant(&tmp);
        }
        let RawResourcePool { all_resources, mut rest_resources } = tmp;
        let list = request.entries();
        let ghost es = request.listing();
        let mut i: usize = 0;
        while i < list.len()
            invariant
                entries(list@) == es,
                keys_distinct(es),
                to_map(es) == req,
                i <= list@.len(),
                keys_distinct(entries(rest_resources@)),
                covered(rest0, req),
                take ==> can_take(rest0, req),
                !take ==> give_back_fits(rest0, req),
                to_map(entries(rest_resources@)) == if take {
                    take_spec(rest0, to_map(es.take(i as int)))
                } else {
                    give_back(rest0, to_map(es.take(i as int)))
                },
            decreases list.len() - i,
        {
            let ghost m = to_map(es.take(i as int));
            let ghost t = es[i as int].0;
            let ghost c = es[i as int].1;
            proof {
                lemma_to_map_take_step(es, i as int);
                lemma_to_map_index(es, i as int);
                assert(list@[i as int].0@ == t && list@[i as int].1 == c);
            }
            let r: u64 = match find_key(&rest_resources, &list[i].0) {
                Some(j) => rest_resources[j].1,
                None => 0,
            };
            let v: u64 = if take {
                r - list[i].1
            } else {
                r + list[i].1
            };
            insert_key(&mut rest_resources, list[i].0.duplicate(), v);
            proof {
                let m1 = m.insert(t, c);
                if take {
                    assert(take_spec(rest0, m1) =~= take_spec(rest0, m).insert(t, v));
                } else {
                    assert(give_back(rest0, m1) =~= give_back(rest0, m).insert(t, v));
                }
            }
            i = i + 1;
        }
        proof {
            lemma_take_all(es);
        }
        *self = RawResourcePool { all_resources, rest_resources };
    }

    /// Takes `request` from what is left, if enough of every kind is left; else
    /// changes nothing. Every requested kind must be tracked.
    pub fn try_occupy_inner(&mut self, request: &ResourceRequest<u64>) -> (taken: bool)
        requires
            covered(old(self).rest(), request.amounts()),
        ensures
            taken == can_take(old(self).rest(), request.amounts()),
            final(self).all() == old(self).all(),
            final(self).rest() == if taken {
                take_spec(old(self).rest(), request.amounts())
            } else {
                old(self).rest()
            },
    {
        if self.can_take_exec(request) {
            self.shift_rest(request, true);
            true
        } else {
            false
        }
    }

    /// Grants queued requests from the front, in order, until one cannot be granted;
    /// returns how many were granted, which leave the queue.
    pub fn notify(&mut self, queue: &mut Vec<ResourceRequest<u64>>) -> (granted: usize)
        requires
            queue_covered(old(self).rest(), old(queue)@),
        ensures
            granted == grant_count(old(self).rest(), queue_amounts(old(queue)@)),
            final(queue)@ == old(queue)@.skip(granted as int),
            final(self).all() == old(self).all(),
            final(self).rest() == after_grants(old(self).rest(), queue_amounts(old(queue)@)),
            queue_covered(final(self).rest(), final(queue)@),
    {
        let ghost q0 = queue@;
        let ghost rest0 = self.rest();
        let mut granted: usize = 0;
        assert(q0.len() == queue.len());
        while queue.len() > 0
            invariant
                q0.len() <= usize::MAX,
                granted <= q0.len(),
                queue@ == q0.skip(granted as int),
                self.all() == old(self).all(),
                queue_covered(self.rest(), queue@),
                grant_count(rest0, queue_amounts(q0)) == granted + grant_count(
                    self.rest(),
                    queue_amounts(queue@),
                ),
                after_grants(rest0, queue_amounts(q0)) == after_grants(
                    self.rest(),
                    queue_amounts(queue@),
                ),
            ensures
                granted <= q0.len(),
                queue@ == q0.skip(granted as int),
                self.all() == old(self).all(),
                queue_covered(self.rest(), queue@),
                grant_count(rest0, queue_amounts(q0)) == granted,
                after_grants(rest0, queue_amounts(q0)) == self.rest(),
            decreases queue.len(),
        {
            let ghost before = self.rest();
            let ghost qbefore = queue@;
            let ghost qa = queue_amounts(queue@);
            proof {
                assert(qa[0] == queue@[0].amounts());
                assert(qa.drop_first() =~= queue_amounts(queue@.drop_first()));
            }
            if self.try_occupy_inner(&queue[0]) {
                assert(granted < q0.len());
                queue.remove(0);
                granted = granted + 1;
                proof {
                    assert(q0.skip(granted as int) =~= q0.skip(granted - 1).drop_first());
                    assert forall|i: int| 0 <= i < queue@.len() implies covered(
                        self.rest(),
                        #[trigger] queue@[i].amounts(),
                    ) by {
                        assert(queue@[i] == qbefore[i + 1]);
                        assert(covered(before, qbefore[i + 1].amounts()));
                    }
                }
            } else {
                break;
            }
        }
        granted
    }

    /// Gives `request` back and grants what the queue holds as far as it goes.
    pub fn release_inner(
        &mut self,
        request: &ResourceRequest<u64>,
        queue: &mut Vec<ResourceRequest<u64>>,
    ) -> (granted: usize)
        requires
            covered(old(self).rest(), request.amounts()),
            give_back_fits(old(self).rest(), request.amounts()),
            queue_covered(old(self).rest(), old(queue)@),
        ensures
            ({
                let back = give_back(old(self).rest(), request.amounts());
                &&& granted == grant_count(back, queue_amounts(old(queue)@))
                &&& final(queue)@ == old(queue)@.skip(granted as int)
                &&& final(self).rest() == after_grants(back, queue_amounts(old(queue)@))
            }),
            final(self).all() == old(self).all(),
    {
        self.shift_rest(request, false);
        self.notify(queue)
    }

    /// Makes room for `request` and takes it if enough is left, then grants what the
    /// queue holds as far as it goes; if it cannot be taken, it joins the end of the
    /// queue. Returns whether it was taken, and how many queued requests were granted.
    pub fn occupy(&mut self, request: ResourceRequest<u64>, queue: &mut Vec<ResourceRequest<u64>>) -> (r: (
        bool,
        usize,
    ))
        requires
            capacity_fits(old(self).all(), old(self).rest(), request.amounts()),
            zero_kinds_tracked(old(self).rest(), request.amounts()),
            queue_covered(old(self).rest(), old(queue)@),
        ensures
            ({
                let req = request.amounts();
                let rest1 = rest_after_capacity(old(self).all(), old(self).rest(), req);
                let qa = queue_amounts(old(queue)@);
                &&& final(self).all() == capacity_after(old(self).all(), req)
                &&& r.0 == can_take(rest1, req)
                &&& r.0 ==> {
                    &&& r.1 == grant_count(take_spec(rest1, req), qa)
                    &&& final(queue)@ == old(queue)@.skip(r.1 as int)
                    &&& final(self).rest() == after_grants(take_spec(rest1, req), qa)
                }
                &&& !r.0 ==> {
                    &&& r.1 == 0
                    &&& final(queue)@ == old(queue)@.push(request)
                    &&& final(self).rest() == rest1
                }
            }),
    {
        proof {
            use_type_invariant(&*self);
            lemma_capacity_covers(self.all(), self.rest(), request.amounts());
        }
        self.make_sure_capacity(&request);
        if self.try_occupy_inner(&request) {
            let n = self.notify(queue);
            (true, n)
        } else {
            proof {
                assert forall|i: int| 0 <= i < queue@.len() implies covered(
                    self.rest(),
                    #[trigger] queue@[i].amounts(),
                ) by {
                    assert(covered(old(self).rest(), queue@[i].amounts()));
                }
            }
            queue.push(request);
            (false, 0)
        }
    }

    /// The concrete amounts for `request` from what is left now.
    pub fn allotment(&self, request: &ResourceRangeRequest) -> (r: ResourceRequest<u64>)
        ensures
            r.amounts() == allot(self.rest(), request.amounts()),
    {
        let list = request.entries();
        let ghost es = request.listing();
        let ghost rest = self.rest();
        let mut r: ResourceRequest<u64> = ResourceRequest::empty();
        let mut i: usize = 0;
        while i < list.len()
            invariant
                entries(list@) == es,
                keys_distinct(es),
                to_map(es) == request.amounts(),
                rest == self.rest(),
                i <= es.len(),
                r.amounts() == allot(rest, to_map(es.take(i as int))),
            decreases list.len() - i,
        {
            proof {
                lemma_to_map_take_step(es, i as int);
                assert(es[i as int] == (list@[i as int].0@, list@[i as int].1));
            }
            let range = list[i].1;
            let available: u64 = match self.rest_of(&list[i].0) {
                Some(v) => v,
                None => 0,
            };
            let x: u64 = if available <= range.maximum {
                available
            } else {
                range.maximum
            };
            let amount: u64 = if range.minimum <= x {
                x
            } else {
                range.minimum
            };
            proof {
                let m = to_map(es.take(i as int));
                assert(allot(rest, m.insert(es[i as int].0, es[i as int].1)) =~= allot(
                    rest,
                    m,
                ).insert(es[i as int].0, amount));
            }
            r = r.with(list[i].0.duplicate(), amount);
            i = i + 1;
        }
        proof {
            lemma_take_all(es);
        }
        r
    }

    /// Makes room for the minimum of every range, then takes as much of every range as
    /// is left if that can be taken, and grants what the queue holds as far as it goes.
    /// Otherwise the request of the minimums joins the end of the queue.
    pub fn occupy_range(
        &mut self,
        request: &ResourceRangeRequest,
        queue: &mut Vec<ResourceRequest<u64>>,
    ) -> (r: RangeOutcome)
        requires
            capacity_fits(old(self).all(), old(self).rest(), minimums(request.amounts())),
            zero_kinds_tracked(old(self).rest(), minimums(request.amounts())),
            queue_covered(old(self).rest(), old(queue)@),
        ensures
            ({
                let mins = minimums(request.amounts());
                let rest1 = rest_after_capacity(old(self).all(), old(self).rest(), mins);
                let c = allot(rest1, request.amounts());
                let qa = queue_amounts(old(queue)@);
                &&& final(self).all() == capacity_after(old(self).all(), mins)
                &&& match r {
                    RangeOutcome::Granted(occupied, n) => {
                        &&& can_take(rest1, c)
                        &&& occupied.amounts() == c
                        &&& n == grant_count(take_spec(rest1, c), qa)
                        &&& final(queue)@ == old(queue)@.skip(n as int)
                        &&& final(self).rest() == after_grants(take_spec(rest1, c), qa)
                    },
                    RangeOutcome::Queued => {
                        &&& !can_take(rest1, c)
                        &&& final(self).rest() == rest1
                        &&& final(queue)@.len() == old(queue)@.len() + 1
                        &&& final(queue)@.take(old(queue)@.len() as int) == old(queue)@
                        &&& final(queue)@.last().amounts() == mins
                    },
                }
            }),
    {
        let min_request = request.minimums();
        proof {
            use_type_invariant(&*self);
            lemma_capacity_covers(self.all(), self.rest(), min_request.amounts());
        }
        self.make_sure_capacity(&min_request);
        let concrete = self.allotment(request);
        proof {
            assert forall|k: ResourceKey| concrete.amounts().contains_key(k) implies self.rest().contains_key(k) by {
                assert(min_request.amounts().contains_key(k));
            }
        }
        if self.try_occupy_inner(&concrete) {
            let n = self.notify(queue);
            RangeOutcome::Granted(concrete, n)
        } else {
            proof {
                assert forall|i: int| 0 <= i < queue@.len() implies covered(
                    self.rest(),
                    #[trigger] queue@[i].amounts(),
                ) by {
                    assert(covered(old(self).rest(), queue@[i].amounts()));
                }
            }
            let ghost q = queue@;
            queue.push(min_request);
            assert(queue@.take(q.len() as int) =~= q);
            RangeOutcome::Queued
        }
    }

    /// After the queued minimums of `request` were granted: works out as much of every
    /// range as is left, gives the minimums back, and takes the concrete amounts if
    /// that can be done. Returns the concrete amounts.
    pub fn resume_range(&mut self, request: &ResourceRangeRequest) -> (r: ResourceRequest<u64>)
        requires
            forall|k: ResourceKey| #[trigger]
                request.amounts().contains_key(k) ==> old(self).rest().contains_key(k),
            give_back_fits(old(self).rest(), minimums(request.amounts())),
        ensures
            ({
                let c = allot(old(self).rest(), request.amounts());
                let back = give_back(old(self).rest(), minimums(request.amounts()));
                &&& r.amounts() == c
                &&& final(self).all() == old(self).all()
                &&& final(self).rest() == if can_take(back, c) {
                    take_spec(back, c)
                } else {
                    back
                }
            }),
    {
        let concrete = self.allotment(request);
        let min_request = request.minimums();
        self.shift_rest(&min_request, false);
        self.try_occupy_inner(&concrete);
        concrete
    }

    /// The processor capacity.
    pub fn get_cpu_count(&self) -> (r: u64)
        ensures
            r == self.all()[ResourceKey::Processor],
    {
        proof {
            use_type_invariant(self);
        }
        match find_key(&self.all_resources, &ResourceType::Processor) {
            Some(i) => self.all_resources[i].1,
            None => unreached(),
        }
    }

    /// The capacity of `kind`, if the pool tracks it.
    pub fn capacity_of(&self, kind: &ResourceType) -> (r: Option<u64>)
        ensures
            match r {
                Some(c) => self.all().contains_key(kind@) && self.all()[kind@] == c,
                None => !self.all().contains_key(kind@),
            },
    {
        proof {
            use_type_invariant(self);
        }
        match find_key(&self.all_resources, kind) {
            Some(i) => Some(self.all_resources[i].1),
            None => None,
        }
    }

    /// What is left of `kind`, if the pool tracks it.
    pub fn rest_of(&self, kind: &ResourceType) -> (r: Option<u64>)
        ensures
            match r {
                Some(c) => self.rest().contains_key(kind@) && self.rest()[kind@] == c,
                None => !self.rest().contains_key(kind@),
            },
    {
        proof {
            use_type_invariant(self);
        }
        match find_key(&self.rest_resources, kind) {
            Some(i) => Some(self.rest_resources[i].1),
            None => None,
        }
    }
}

} // verus!
