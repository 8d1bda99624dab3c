//! A small map keyed by anomaly type, holding at most one entry per type.

use vstd::prelude::*;

verus! {

/// Stable identity of a monitored signal, independent of severity.
#[derive(Debug, Clone, Copy, PartialEq, Eq, Hash, Structural)]
pub enum AnomalyType {
    Memory,
    Swap,
    Load,
    MemoryGrowthRate,
    ProcessWatchlist,
}

/// The number of anomaly types.
pub const TYPE_COUNT: usize = 5;

impl AnomalyType {
    /// The position of the type in evaluation order.
    pub open spec fn index(self) -> int {
        match self {
            AnomalyType::Memory => 0,
            AnomalyType::Swap => 1,
            AnomalyType::Load => 2,
            AnomalyType::MemoryGrowthRate => 3,
            AnomalyType::ProcessWatchlist => 4,
        }
    }

    /// The position of the type in evaluation order.
    pub fn slot(&self) -> (r: usize)
        ensures
            r == self.index(),
    {
        match self {
            AnomalyType::Memory => 0,
            AnomalyType::Swap => 1,
            AnomalyType::Load => 2,
            AnomalyType::MemoryGrowthRate => 3,
            AnomalyType::ProcessWatchlist => 4,
        }
    }
}

/// The type at a position of evaluation order.
pub open spec fn type_at(i: int) -> AnomalyType {
    if i == 0 {
        AnomalyType::Memory
    } else if i == 1 {
        AnomalyType::Swap
    } else if i == 2 {
        AnomalyType::Load
    } else if i == 3 {
        AnomalyType::MemoryGrowthRate
    } else {
        AnomalyType::ProcessWatchlist
    }
}

/// The type at a position of evaluation order.
pub fn type_at_exec(i: usize) -> (r: AnomalyType)
    requires
        i < TYPE_COUNT,
    ensures
        r == type_at(i as int),
        r.index() == i,
{
    if i == 0 {
        AnomalyType::Memory
    } else if i == 1 {
        AnomalyType::Swap
    } else if i == 2 {
        AnomalyType::Load
    } else if i == 3 {
        AnomalyType::MemoryGrowthRate
    } else {
        AnomalyType::ProcessWatchlist
    }
}

/// Positions and types correspond one to one.
pub proof fn lemma_type_index(t: AnomalyType)
    ensures
        0 <= t.index() < 5,
        type_at(t.index()) == t,
{
}

/// The value of a key in a map, if any.
pub open spec fn lookup<K, V>(m: Map<K, V>, k: K) -> Option<V> {
    if m.contains_key(k) {
        Some(m[k])
    } else {
        None
    }
}

/// At most one value for each anomaly type.
pub struct TypeTable<T> {
    slots: Vec<Option<T>>,
}

impl<T> View for TypeTable<T> {
    type V = Map<AnomalyType, T>;

    closed spec fn view(&self) -> Map<AnomalyType, T> {
        Map::new(
            |t: AnomalyType| self.slots@[t.index()] is Some,
            |t: AnomalyType| self.slots@[t.index()].unwrap(),
        )
    }
}

impl<T: Copy> TypeTable<T> {
    pub closed spec fn wf(&self) -> bool {
        self.slots@.len() == TYPE_COUNT
    }

    pub fn new() -> (r: Self)
        ensures
            r.wf(),
            r@ == Map::<AnomalyType, T>::empty(),
    {
        let r = TypeTable { slots: vec![None, None, None, None, None] };
        assert(r@ =~= Map::<AnomalyType, T>::empty());
        r
    }

    pub fn get(&self, t: AnomalyType) -> (r: Option<T>)
        requires
            self.wf(),
        ensures
            r == lookup(self@, t),
    {
        proof { lemma_type_index(t); }
        self.slots[t.slot()]
    }

    pub fn insert(&mut self, t: AnomalyType, v: T)
        requires
            old(self).wf(),
        ensures
            final(self).wf(),
            final(self)@ == old(self)@.insert(t, v),
    {
        proof { lemma_type_index(t); }
        let i = t.slot();
        self.slots.set(i, Some(v));
        proof {
            assert forall|u: AnomalyType| #[trigger] self.slots@[u.index()] == (if u == t {
                Some(v)
            } else {
                old(self).slots@[u.index()]
            }) by {
                lemma_type_index(u);
                if u != t {
                    assert(u.index() != t.index());
                }
            }
            assert(self@ =~= old(self)@.insert(t, v));
        }
    }

    /// Drops the entries of the types whose flag is not set.
    pub fn keep_only(&mut self, keep: &Vec<bool>)
        requires
            old(self).wf(),
            keep@.len() == TYPE_COUNT,
        ensures
            final(self).wf(),
            final(self)@ == old(self)@.restrict(Set::new(|t: AnomalyType| keep@[t.index()])),
    {
        let mut i: usize = 0;
        while i < TYPE_COUNT
            invariant
                i <= TYPE_COUNT,
                keep@.len() == TYPE_COUNT,
                self.slots@.len() == TYPE_COUNT,
                forall|j: int| 0 <= j < i ==> #[trigger] self.slots@[j] == (if keep@[j] {
                    old(self).slots@[j]
                } else {
                    None
                }),
                forall|j: int| i <= j < TYPE_COUNT ==> #[trigger] self.slots@[j] == old(self).slots@[j],
            decreases TYPE_COUNT - i,
        {
            if !keep[i] {
                self.slots.set(i, None);
            }
            i = i + 1;
        }
        proof {
            assert forall|u: AnomalyType| #[trigger] self.slots@[u.index()] == (if keep@[u.index()] {
                old(self).slots@[u.index()]
            } else {
                None
            }) by {
                lemma_type_index(u);
            }
            assert(self@ =~= old(self)@.restrict(Set::new(|t: AnomalyType| keep@[t.index()])));
        }
    }
}

/// Maps that agree on every lookup are equal.
pub proof fn lemma_lookup_ext<V>(a: Map<AnomalyType, V>, b: Map<AnomalyType, V>)
    requires
        forall|t: AnomalyType| #[trigger] lookup(a, t) == lookup(b, t),
    ensures
        a == b,
{
    assert forall|t: AnomalyType| a.contains_key(t) <==> #[trigger] b.contains_key(t) by {
        assert(lookup(a, t) == lookup(b, t));
    }
    assert forall|t: AnomalyType| #[trigger] a.contains_key(t) implies a[t] == b[t] by {
        assert(lookup(a, t) == lookup(b, t));
    }
    assert(a =~= b);
}

} // verus!
