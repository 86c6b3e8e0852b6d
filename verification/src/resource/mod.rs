//! Resources that build steps request: kinds, amounts and ranges.
use vstd::prelude::*;

pub mod assoc;
pub mod heuristics;
pub mod laws;
pub mod pool;

use crate::resource::assoc::{
    entries, keys_distinct, lemma_entries_push, lemma_entries_update, lemma_take_all,
    lemma_to_map_domain, lemma_to_map_index, lemma_to_map_push, lemma_to_map_take_step,
    lemma_to_map_update, to_map,
};

verus! {

/// A kind of resource.
#[derive(Debug, Clone, PartialEq, Eq, Hash)]
pub enum ResourceType {
    /// unit: IO thread
    DiskIO,
    /// unit: byte
    Memory,
    /// unit: thread
    Processor,
    /// unit: byte
    Network,
    /// unit: thread
    GPU,
    /// unit: determined by user
    Other(String),
}

/// The mathematical form of a resource kind.
pub enum ResourceKey {
    DiskIO,
    Memory,
    Processor,
    Network,
    GPU,
    Other(Seq<char>),
}

impl View for ResourceType {
    type V = ResourceKey;

    open spec fn view(&self) -> ResourceKey {
        match self {
            ResourceType::DiskIO => ResourceKey::DiskIO,
            ResourceType::Memory => ResourceKey::Memory,
            ResourceType::Processor => ResourceKey::Processor,
            ResourceType::Network => ResourceKey::Network,
            ResourceType::GPU => ResourceKey::GPU,
            ResourceType::Other(s) => ResourceKey::Other(s@),
        }
    }
}

impl ResourceType {
    /// A copy with the same kind.
    pub fn duplicate(&self) -> (r: ResourceType)
        ensures
            r@ == self@,
    {
        match self {
            ResourceType::DiskIO => ResourceType::DiskIO,
            ResourceType::Memory => ResourceType::Memory,
            ResourceType::Processor => ResourceType::Processor,
            ResourceType::Network => ResourceType::Network,
            ResourceType::GPU => ResourceType::GPU,
            ResourceType::Other(s) => ResourceType::Other(s.clone()),
        }
    }

    /// Whether two values name the same kind.
    pub fn same_as(&self, other: &ResourceType) -> (r: bool)
        ensures
            r == (self@ == other@),
    {
        match (self, other) {
            (ResourceType::DiskIO, ResourceType::DiskIO) => true,
            (ResourceType::Memory, ResourceType::Memory) => true,
            (ResourceType::Processor, ResourceType::Processor) => true,
            (ResourceType::Network, ResourceType::Network) => true,
            (ResourceType::GPU, ResourceType::GPU) => true,
            (ResourceType::Other(a), ResourceType::Other(b)) => *a == *b,
            _ => false,
        }
    }
}

pub type ResourceUnit = u64;

/// An amount between `minimum` and `maximum`.
#[derive(Debug, Clone, Copy, PartialEq, Eq, Hash)]
pub struct ResourceRange {
    pub minimum: ResourceUnit,
    pub maximum: ResourceUnit,
}

/// A value given, or left to the heuristics of the machine.
pub enum DetectableResourceValue {
    Value(ResourceUnit),
    Heuristics,
}

/// The index of `key` in `list`, if it is there.
pub fn find_key<V: Copy>(list: &Vec<(ResourceType, V)>, key: &ResourceType) -> (r: Option<usize>)
    requires
        keys_distinct(entries(list@)),
    ensures
        match r {
            Some(i) => i < list@.len() && list@[i as int].0@ == key@ && to_map(
                entries(list@),
            ).contains_key(key@) && to_map(entries(list@))[key@] == list@[i as int].1,
            None => !to_map(entries(list@)).contains_key(key@),
        },
{
    let mut i: usize = 0;
    while i < list.len()
        invariant
            keys_distinct(entries(list@)),
            i <= list@.len(),
            forall|j: int| 0 <= j < i ==> list@[j].0@ != key@,
        decreases list.len() - i,
    {
        if list[i].0.same_as(key) {
            proof {
                assert(entries(list@)[i as int] == (list@[i as int].0@, list@[i as int].1));
                lemma_to_map_index(entries(list@), i as int);
            }
            return Some(i);
        }
        i = i + 1;
    }
    proof {
        lemma_to_map_domain(entries(list@));
        if to_map(entries(list@)).contains_key(key@) {
            let j = choose|j: int|
                0 <= j < entries(list@).len() && #[trigger] entries(list@)[j].0 == key@;
            assert(entries(list@)[j] == (list@[j].0@, list@[j].1));
        }
    }
    None
}

/// Sets the value of `key` in `list`, adding the key when it is new.
pub fn insert_key<V: Copy>(list: &mut Vec<(ResourceType, V)>, key: ResourceType, value: V)
    requires
        keys_distinct(entries(old(list)@)),
    ensures
        keys_distinct(entries(final(list)@)),
        to_map(entries(final(list)@)) == to_map(entries(old(list)@)).insert(key@, value),
        forall|k: ResourceKey|
            #![trigger to_map(entries(final(list)@)).contains_key(k)]
            to_map(entries(old(list)@)).contains_key(k) ==> to_map(
                entries(final(list)@),
            ).contains_key(k),
{
    match find_key(list, &key) {
        Some(i) => {
            let ghost before = list@;
            list.set(i, (key, value));
            proof {
                lemma_entries_update(before, i as int, (key, value));
                lemma_to_map_update(entries(before), i as int, value);
            }
        },
        None => {
            let ghost before = list@;
            let ghost k = key@;
            list.push((key, value));
            proof {
                lemma_entries_push(before, (key, value));
                lemma_to_map_push(entries(before), k, value);
            }
        },
    }
}

/// Amounts of resources, by kind.
#[derive(Debug)]
pub struct ResourceRequest<U: Copy> {
    requested: Vec<(ResourceType, U)>,
}

pub type ResourceRangeRequest = ResourceRequest<ResourceRange>;

impl<U: Copy> ResourceRequest<U> {
    #[verifier::type_invariant]
    spec fn inv(self) -> bool {
        keys_distinct(entries(self.requested@))
    }

    /// The amounts, by kind.
    pub closed spec fn amounts(self) -> Map<ResourceKey, U> {
        to_map(entries(self.requested@))
    }

    /// The requested kinds and amounts, in the order they were first set.
    pub closed spec fn listing(self) -> Seq<(ResourceKey, U)> {
        entries(self.requested@)
    }

    pub fn entries(&self) -> (r: &Vec<(ResourceType, U)>)
        ensures
            entries(r@) == self.listing(),
            keys_distinct(self.listing()),
            to_map(self.listing()) == self.amounts(),
    {
        proof {
            use_type_invariant(self);
        }
        &self.requested
    }

    /// A request with the same amounts.
    pub fn duplicate(&self) -> (r: Self)
        ensures
            r.listing() == self.listing(),
            r.amounts() == self.amounts(),
    {
        proof {
            use_type_invariant(self);
        }
        let mut requested: Vec<(ResourceType, U)> = Vec::new();
        let mut i: usize = 0;
        while i < self.requested.len()
            invariant
                i <= self.requested@.len(),
                entries(requested@) == entries(self.requested@).take(i as int),
            decreases self.requested.len() - i,
        {
            let ghost before = requested@;
            requested.push((self.requested[i].0.duplicate(), self.requested[i].1));
            proof {
                lemma_entries_push(before, requested@.last());
                assert(entries(self.requested@).take(i + 1) =~= entries(self.requested@).take(
                    i as int,
                ).push(entries(self.requested@)[i as int]));
            }
            i = i + 1;
        }
        assert(entries(self.requested@).take(i as int) =~= entries(self.requested@));
        ResourceRequest { requested }
    }

    /// A request of nothing.
    pub fn empty() -> (r: Self)
        ensures
            r.amounts() == Map::<ResourceKey, U>::empty(),
            r.listing().len() == 0,
    {
        let r = ResourceRequest { requested: Vec::new() };
        assert(entries(r.requested@) =~= Seq::<(ResourceKey, U)>::empty());
        r
    }

    /// This request with `count` of `kind` (replacing an earlier amount).
    pub fn with(self, kind: ResourceType, count: U) -> (r: Self)
        ensures
            r.amounts() == self.amounts().insert(kind@, count),
    {
        proof {
            use_type_invariant(&self);
        }
        let mut requested = self.requested;
        insert_key(&mut requested, kind, count);
        ResourceRequest { requested }
    }

    /// The amount of `kind`, if requested.
    pub fn get(&self, kind: &ResourceType) -> (r: Option<U>)
        ensures
            match r {
                Some(c) => self.amounts().contains_key(kind@) && self.amounts()[kind@] == c,
                None => !self.amounts().contains_key(kind@),
            },
    {
        proof {
            use_type_invariant(self);
        }
        match find_key(&self.requested, kind) {
            Some(i) => Some(self.requested[i].1),
            None => None,
        }
    }

    pub fn cpu(count: U) -> (r: Self)
        ensures
            r.amounts() == Map::<ResourceKey, U>::empty().insert(ResourceKey::Processor, count),
    {
        Self::empty().with(ResourceType::Processor, count)
    }

    pub fn fs_io(count: U) -> (r: Self)
        ensures
            r.amounts() == Map::<ResourceKey, U>::empty().insert(ResourceKey::DiskIO, count),
    {
        Self::empty().with(ResourceType::DiskIO, count)
    }

    pub fn gpu(count: U) -> (r: Self)
        ensures
            r.amounts() == Map::<ResourceKey, U>::empty().insert(ResourceKey::GPU, count),
    {
        Self::empty().with(ResourceType::GPU, count)
    }

    pub fn memory(count: U) -> (r: Self)
        ensures
            r.amounts() == Map::<ResourceKey, U>::empty().insert(ResourceKey::Memory, count),
    {
        Self::empty().with(ResourceType::Memory, count)
    }

    pub fn network(count: U) -> (r: Self)
        ensures
            r.amounts() == Map::<ResourceKey, U>::empty().insert(ResourceKey::Network, count),
    {
        Self::empty().with(ResourceType::Network, count)
    }

    pub fn other(name: String, count: U) -> (r: Self)
        ensures
            r.amounts() == Map::<ResourceKey, U>::empty().insert(ResourceKey::Other(name@), count),
    {
        Self::empty().with(ResourceType::Other(name), count)
    }

    pub fn request_cpu(self, count: U) -> (r: Self)
        ensures
            r.amounts() == self.amounts().insert(ResourceKey::Processor, count),
    {
        self.with(ResourceType::Processor, count)
    }

    pub fn request_fs_io(self, count: U) -> (r: Self)
        ensures
            r.amounts() == self.amounts().insert(ResourceKey::DiskIO, count),
    {
        self.with(ResourceType::DiskIO, count)
    }

    pub fn request_gpu(self, count: U) -> (r: Self)
        ensures
            r.amounts() == self.amounts().insert(ResourceKey::GPU, count),
    {
        self.with(ResourceType::GPU, count)
    }

    pub fn request_memory(self, count: U) -> (r: Self)
        ensures
            r.amounts() == self.amounts().insert(ResourceKey::Memory, count),
    {
        self.with(ResourceType::Memory, count)
    }

    pub fn request_network(self, count: U) -> (r: Self)
        ensures
            r.amounts() == self.amounts().insert(ResourceKey::Network, count),
    {
        self.with(ResourceType::Network, count)
    }

    pub fn request_other(self, name: String, count: U) -> (r: Self)
        ensures
            r.amounts() == self.amounts().insert(ResourceKey::Other(name@), count),
    {
        self.with(ResourceType::Other(name), count)
    }
}

/// The minimum of each requested range.
pub open spec fn minimums(req: Map<ResourceKey, ResourceRange>) -> Map<ResourceKey, u64> {
    Map::new(|k: ResourceKey| req.contains_key(k), |k: ResourceKey| req[k].minimum)
}

impl ResourceRequest<ResourceRange> {
    /// The request of the minimum of every range.
    pub fn minimums(&self) -> (r: ResourceRequest<u64>)
        ensures
            r.amounts() == minimums(self.amounts()),
    {
        proof {
            use_type_invariant(self);
        }
        let ghost es = entries(self.requested@);
        let mut r: ResourceRequest<u64> = ResourceRequest::empty();
        let mut i: usize = 0;
        while i < self.requested.len()
            invariant
                es == entries(self.requested@),
                keys_distinct(es),
                i <= es.len(),
                r.amounts() == minimums(to_map(es.take(i as int))),
            decreases self.requested.len() - i,
        {
            proof {
                lemma_to_map_take_step(es, i as int);
                assert(es[i as int] == (self.requested@[i as int].0@, self.requested@[i as int].1));
                let m = to_map(es.take(i as int));
                assert(minimums(m.insert(es[i as int].0, es[i as int].1)) =~= minimums(m).insert(
                    es[i as int].0,
                    es[i as int].1.minimum,
                ));
            }
            r = r.with(self.requested[i].0.duplicate(), self.requested[i].1.minimum);
            i = i + 1;
        }
        proof {
            lemma_take_all(es);
        }
        r
    }
}

} // verus!
