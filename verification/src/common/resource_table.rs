//! A table of numbered slots, as process ids and the like are handed out:
//! an id is reserved, then given its resource, looked up, and at last
//! removed, which makes the id free again.

use vstd::prelude::*;
use std::collections::BTreeSet;

verus! {

/// The ids below `n`.
pub open spec fn ids_below(n: usize) -> Set<usize> {
    Set::new(|i: usize| i < n)
}

/// The ids from `lo` up to, but not including, `hi`.
pub open spec fn ids_between(lo: int, hi: int) -> Set<usize> {
    Set::new(|i: usize| lo <= i < hi)
}

/// The id `id` is the smallest of `s`.
pub open spec fn is_least(s: Set<usize>, id: usize) -> bool {
    &&& s.contains(id)
    &&& forall|other: usize| s.contains(other) ==> id <= other
}

/// The free ids from which the next one is taken: those that are free, or,
/// where none is free, as many new ones as the table has ids.
pub open spec fn grown_free(free: Set<usize>, capacity: usize) -> Set<usize> {
    if free.is_empty() {
        ids_between(capacity as int, 2 * capacity)
    } else {
        free
    }
}

/// The number of ids of the table once the next one is taken.
pub open spec fn grown_capacity(free: Set<usize>, capacity: usize) -> int {
    if free.is_empty() {
        2 * capacity
    } else {
        capacity as int
    }
}

/// Takes the smallest id out of `ids` and returns it, or returns `None`
/// where `ids` is empty. This is `BTreeSet::pop_first` of the standard
/// library, whose first element is the minimum of the set.
#[verifier::external_body]
pub(crate) fn pop_smallest(ids: &mut BTreeSet<usize>) -> (r: Option<usize>)
    ensures
        match r {
            Some(id) => is_least(old(ids)@, id) && final(ids)@ == old(ids)@.remove(id),
            None => old(ids)@.is_empty() && final(ids)@ == old(ids)@,
        },
{
    ids.pop_first()
}

/// The ids that are free, and how many ids there are in all.
pub struct FreeSlotsInner {
    free_ids: BTreeSet<usize>,
    capacity: usize,
}

impl FreeSlotsInner {
    /// The free ids.
    pub closed spec fn free(&self) -> Set<usize> {
        self.free_ids@
    }

    /// How many ids there are, free or not.
    pub closed spec fn capacity(&self) -> usize {
        self.capacity
    }

    /// There is at least one id, and every free id is one of them.
    pub open spec fn wf(&self) -> bool {
        &&& self.capacity() >= 1
        &&& self.free().subset_of(ids_below(self.capacity()))
    }

    /// Puts the ids from `lo` up to `hi` into the free ids.
    fn add_range(&mut self, lo: usize, hi: usize)
        requires
            lo <= hi,
        ensures
            final(self).free() == old(self).free().union(ids_between(lo as int, hi as int)),
            final(self).capacity() == old(self).capacity(),
    {
        let mut id: usize = lo;
        assert(self.free_ids@ =~= old(self).free_ids@.union(ids_between(lo as int, lo as int)));
        while id < hi
            invariant
                lo <= id <= hi,
                self.capacity == old(self).capacity,
                self.free_ids@ == old(self).free_ids@.union(ids_between(lo as int, id as int)),
            decreases hi - id,
        {
            self.free_ids.insert(id);
            id = id + 1;
            assert(self.free_ids@ =~= old(self).free_ids@.union(
                ids_between(lo as int, id as int),
            ));
        }
    }

    /// The ids below `capacity`, all free.
    pub fn new(capacity: usize) -> (r: Self)
        requires
            capacity >= 1,
        ensures
            r.wf(),
            r.capacity() == capacity,
            r.free() == ids_below(capacity),
    {
        let mut slots = Self { free_ids: BTreeSet::new(), capacity };
        slots.add_range(0, capacity);
        assert(slots.free_ids@ =~= ids_below(capacity));
        slots
    }

    /// Takes the smallest free id. Where no id is free, there are twice as
    /// many ids from now on, and the new ones are free.
    pub fn allocate_one(&mut self) -> (id: usize)
        requires
            old(self).wf(),
            !old(self).free().is_empty() || old(self).capacity() * 2 <= usize::MAX,
        ensures
            final(self).wf(),
            is_least(grown_free(old(self).free(), old(self).capacity()), id),
            final(self).free() == grown_free(old(self).free(), old(self).capacity()).remove(id),
            final(self).capacity() == grown_capacity(old(self).free(), old(self).capacity()),
    {
        if self.free_ids.is_empty() {
            let capacity: usize = self.capacity;
            self.add_range(capacity, capacity * 2);
            self.capacity = capacity * 2;
            assert(self.free_ids@ =~= ids_between(capacity as int, 2 * capacity));
            assert(self.free_ids@.contains(capacity));
        }
        match pop_smallest(&mut self.free_ids) {
            Some(id) => id,
            None => {
                // The free ids are not empty here.
                0
            },
        }
    }

    /// Makes `id` free again.
    pub fn return_one(&mut self, id: usize)
        requires
            old(self).wf(),
            id < old(self).capacity(),
            !old(self).free().contains(id),
        ensures
            final(self).wf(),
            final(self).free() == old(self).free().insert(id),
            final(self).capacity() == old(self).capacity(),
    {
        self.free_ids.insert(id);
    }
}

/// Which ids of a table are in use and, for each, whether it has its
/// resource yet: a hash map of `hashbrown`.
#[verifier::external_body]
pub struct SlotMap {
    inner: hashbrown::HashMap<usize, bool>,
}

/// What a `SlotMap` holds.
pub uninterp spec fn slot_states(m: SlotMap) -> Map<usize, bool>;

/// An empty map: `HashMap::new` of `hashbrown`.
#[verifier::external_body]
fn slots_new() -> (r: SlotMap)
    ensures
        slot_states(r).dom() == Set::<usize>::empty(),
{
    SlotMap { inner: hashbrown::HashMap::new() }
}

/// `HashMap::insert` of `hashbrown`: the map then holds `state` for `id`,
/// and what it held for `id` before is returned.
#[verifier::external_body]
fn slots_insert(m: &mut SlotMap, id: usize, state: bool) -> (r: Option<bool>)
    ensures
        slot_states(*final(m)) == slot_states(*old(m)).insert(id, state),
        r == if slot_states(*old(m)).contains_key(id) {
            Some(slot_states(*old(m))[id])
        } else {
            None
        },
{
    m.inner.insert(id, state)
}

/// `HashMap::get` of `hashbrown`: what the map holds for `id`.
#[verifier::external_body]
fn slots_get(m: &SlotMap, id: usize) -> (r: Option<bool>)
    ensures
        r == if slot_states(*m).contains_key(id) {
            Some(slot_states(*m)[id])
        } else {
            None
        },
{
    m.inner.get(&id).copied()
}

/// `HashMap::remove` of `hashbrown`: the map then holds nothing for `id`,
/// and what it held for `id` before is returned.
#[verifier::external_body]
fn slots_remove(m: &mut SlotMap, id: usize) -> (r: Option<bool>)
    ensures
        slot_states(*final(m)) == slot_states(*old(m)).remove(id),
        r == if slot_states(*old(m)).contains_key(id) {
            Some(slot_states(*old(m))[id])
        } else {
            None
        },
{
    m.inner.remove(&id)
}

/// A table of slots, each with an id. A slot is reserved first and given
/// its resource later.
pub struct ResourceTable<T> {
    /// The ids in use and, for each, whether it has its resource.
    active_slots: SlotMap,
    /// For each id, its resource, where it has one.
    resources: Vec<Option<T>>,
    /// The ids that are not in use.
    free_slots: FreeSlotsInner,
    /// A name for messages.
    name: String,
}

impl<T> ResourceTable<T> {
    /// For each id in use, its resource, or `None` while it has none yet.
    pub closed spec fn slots(&self) -> Map<usize, Option<T>> {
        Map::new(
            |id: usize| slot_states(self.active_slots).contains_key(id),
            |id: usize| self.resources@[id as int],
        )
    }

    /// The ids that are not in use.
    pub closed spec fn free(&self) -> Set<usize> {
        self.free_slots.free()
    }

    /// How many ids there are, in use or not.
    pub closed spec fn capacity(&self) -> usize {
        self.free_slots.capacity()
    }

    /// The name of the table.
    pub closed spec fn name(&self) -> Seq<char> {
        self.name@
    }

    /// What the fields add to the three public invariants.
    pub closed spec fn inner_wf(&self) -> bool {
        &&& self.free_slots.wf()
        &&& self.resources@.len() == self.capacity()
        &&& forall|j: int|
            0 <= j < self.capacity() && !slot_states(self.active_slots).contains_key(j as usize)
                ==> #[trigger] self.resources@[j] is None
        &&& forall|id: usize| #[trigger]
            slot_states(self.active_slots).contains_key(id) ==> id < self.capacity()
                && slot_states(self.active_slots)[id] == (self.resources@[id as int] is Some)
    }

    /// No id is both free and in use, and the free ids and those in use are
    /// together the ids below the capacity.
    pub open spec fn wf(&self) -> bool {
        &&& self.inner_wf()
        &&& self.capacity() >= 1
        &&& self.free().disjoint(self.slots().dom())
        &&& self.free().union(self.slots().dom()) == ids_below(self.capacity())
    }

    /// A table of `capacity` ids, all free.
    pub fn new(capacity: usize) -> (r: Self)
        requires
            capacity >= 1,
        ensures
            r.wf(),
            r.capacity() == capacity,
            r.free() == ids_below(capacity),
            r.slots() == Map::<usize, Option<T>>::empty(),
    {
        let mut resources: Vec<Option<T>> = Vec::new();
        let mut i: usize = 0;
        while i < capacity
            invariant
                i <= capacity,
                resources@.len() == i,
                forall|j: int| 0 <= j < i ==> resources@[j] is None,
            decreases capacity - i,
        {
            resources.push(None);
            i = i + 1;
        }
        let table = Self {
            active_slots: slots_new(),
            resources,
            free_slots: FreeSlotsInner::new(capacity),
            name: "Resource".to_owned(),
        };
        proof {
            assert(table.slots() =~= Map::<usize, Option<T>>::empty());
            assert(table.free().union(table.slots().dom()) =~= ids_below(capacity));
        }
        table
    }

    pub fn set_name(&mut self, name: &str)
        ensures
            final(self).name() == name@,
            final(self).slots() == old(self).slots(),
            final(self).free() == old(self).free(),
            final(self).capacity() == old(self).capacity(),
            old(self).wf() ==> final(self).wf(),
    {
        self.name = name.to_owned();
    }

    /// Takes the smallest free id into use, without a resource yet, and
    /// returns it. Where no id is free, the capacity doubles first.
    pub fn reserve_entry(&mut self) -> (id: usize)
        requires
            old(self).wf(),
            !old(self).free().is_empty() || old(self).capacity() * 2 <= usize::MAX,
        ensures
            final(self).wf(),
            is_least(grown_free(old(self).free(), old(self).capacity()), id),
            final(self).free() == grown_free(old(self).free(), old(self).capacity()).remove(id),
            final(self).capacity() == grown_capacity(old(self).free(), old(self).capacity()),
            final(self).slots() == old(self).slots().insert(id, None),
            final(self).name() == old(self).name(),
    {
        let old_capacity: usize = self.free_slots.capacity;
        let id: usize = self.free_slots.allocate_one();
        let new_capacity: usize = self.free_slots.capacity;
        let mut i: usize = old_capacity;
        while i < new_capacity
            invariant
                old_capacity <= i <= new_capacity,
                self.resources@.len() == i,
                self.active_slots == old(self).active_slots,
                self.name == old(self).name,
                self.free_slots.free() == grown_free(old(self).free(), old(self).capacity()).remove(
                    id,
                ),
                self.free_slots.capacity() == new_capacity,
                self.free_slots.wf(),
                forall|j: int| 0 <= j < old_capacity ==> self.resources@[j] == old(self).resources@[j],
                forall|j: int| old_capacity <= j < i ==> self.resources@[j] is None,
            decreases new_capacity - i,
        {
            self.resources.push(None);
            i = i + 1;
        }
        proof {
            assert(!old(self).slots().dom().contains(id)) by {
                if old(self).free().is_empty() {
                    assert(old(self).free().union(old(self).slots().dom()).contains(id)
                        ==> false);
                } else {
                    assert(old(self).free().contains(id));
                }
            }
        }
        let previous: Option<bool> = slots_insert(&mut self.active_slots, id, false);
        proof {
            assert(previous is None);
            assert(self.resources@[id as int] is None);
            let target = old(self).slots().insert(id, None);
            assert forall|k: usize| target.contains_key(k) implies #[trigger] self.slots()[k]
                == target[k] by {
                if k != id {
                    assert(slot_states(old(self).active_slots).contains_key(k));
                }
            }
            assert(self.slots() =~= target);
            assert(self.free().union(self.slots().dom()) =~= ids_below(self.capacity())) by {
                assert forall|k: usize| self.free().union(self.slots().dom()).contains(k)
                    == ids_below(self.capacity()).contains(k) by {
                    assert(old(self).free().union(old(self).slots().dom()).contains(k)
                        == ids_below(old(self).capacity()).contains(k));
                }
            }
        }
        id
    }

    /// Gives the reserved slot `id` its resource.
    pub fn initialise_entry(&mut self, id: usize, data: T)
        requires
            old(self).wf(),
            old(self).slots().contains_key(id),
            old(self).slots()[id] is None,
        ensures
            final(self).wf(),
            final(self).slots() == old(self).slots().insert(id, Some(data)),
            final(self).free() == old(self).free(),
            final(self).capacity() == old(self).capacity(),
            final(self).name() == old(self).name(),
    {
        proof {
            assert(old(self).free().union(old(self).slots().dom()).contains(id));
        }
        assert(slot_states(old(self).active_slots).contains_key(id));
        let _ = slots_insert(&mut self.active_slots, id, true);
        self.resources.set(id, Some(data));
        proof {
            let target = old(self).slots().insert(id, Some(data));
            assert forall|k: usize| target.contains_key(k) implies #[trigger] self.slots()[k]
                == target[k] by {
                if k != id {
                    assert(slot_states(old(self).active_slots).contains_key(k));
                }
            }
            assert(self.slots() =~= target);
            assert(self.slots().dom() =~= old(self).slots().dom());
            assert forall|j: int|
                0 <= j < self.capacity() && !slot_states(self.active_slots).contains_key(
                    j as usize,
                ) implies #[trigger] self.resources@[j] is None by {
                assert(old(self).resources@[j] is None);
            }
            assert forall|k: usize| #[trigger]
                slot_states(self.active_slots).contains_key(k) implies k < self.capacity()
                && slot_states(self.active_slots)[k] == (self.resources@[k as int] is Some) by {
                if k != id {
                    assert(slot_states(old(self).active_slots).contains_key(k));
                }
            }
        }
    }

    /// The resource of slot `id`.
    pub fn get(&self, id: usize) -> (r: &T)
        requires
            self.wf(),
            self.slots().contains_key(id),
            self.slots()[id] is Some,
        ensures
            self.slots()[id] == Some(*r),
    {
        proof {
            assert(self.free().union(self.slots().dom()).contains(id));
        }
        self.resources[id].as_ref().unwrap()
    }

    /// The resource of slot `id`, for changes.
    pub fn get_mut(&mut self, id: usize) -> (r: &mut T)
        requires
            old(self).wf(),
            old(self).slots().contains_key(id),
            old(self).slots()[id] is Some,
        ensures
            Some(*r) == old(self).slots()[id],
            final(self).wf(),
            final(self).slots() == old(self).slots().insert(id, Some(*final(r))),
            final(self).free() == old(self).free(),
            final(self).capacity() == old(self).capacity(),
            final(self).name() == old(self).name(),
    {
        proof {
            assert(old(self).free().union(old(self).slots().dom()).contains(id));
            assert(slot_states(old(self).active_slots).contains_key(id));
        }
        let slot: &mut Option<T> = &mut self.resources[id];
        slot.as_mut().unwrap()
    }

    /// How many ids there are, in use or not.
    pub fn n_slots(&self) -> (r: usize)
        ensures
            r == self.capacity(),
    {
        self.free_slots.capacity
    }

    /// Whether the id `id` is free.
    pub fn is_free(&self, id: usize) -> (r: bool)
        ensures
            r == self.free().contains(id),
    {
        self.free_slots.free_ids.contains(&id)
    }

    /// Whether slot `id` is in use, with or without its resource.
    pub fn is_reserved(&self, id: usize) -> (r: bool)
        ensures
            r == self.slots().contains_key(id),
    {
        slots_get(&self.active_slots, id).is_some()
    }

    /// Whether slot `id` is in use and has its resource.
    pub fn is_initialised(&self, id: usize) -> (r: bool)
        requires
            self.wf(),
        ensures
            r == (self.slots().contains_key(id) && self.slots()[id] is Some),
    {
        match slots_get(&self.active_slots, id) {
            Some(state) => state,
            None => false,
        }
    }

    /// Takes slot `id` out of use and makes the id free again. Returns the
    /// resource that the slot had, if it had one.
    pub fn remove_entry(&mut self, id: usize) -> (r: Option<T>)
        requires
            old(self).wf(),
            old(self).slots().contains_key(id),
        ensures
            final(self).wf(),
            r == old(self).slots()[id],
            final(self).slots() == old(self).slots().remove(id),
            final(self).free() == old(self).free().insert(id),
            final(self).capacity() == old(self).capacity(),
            final(self).name() == old(self).name(),
    {
        proof {
            assert(old(self).free().union(old(self).slots().dom()).contains(id));
            assert(!old(self).free().contains(id));
        }
        assert(slot_states(old(self).active_slots).contains_key(id));
        let _ = slots_remove(&mut self.active_slots, id);
        let mut taken: Option<T> = None;
        self.resources.set_and_swap(id, &mut taken);
        self.free_slots.return_one(id);
        proof {
            let target = old(self).slots().remove(id);
            assert forall|k: usize| target.contains_key(k) implies #[trigger] self.slots()[k]
                == target[k] by {
                assert(slot_states(old(self).active_slots).contains_key(k));
            }
            assert(self.slots() =~= target);
            assert forall|j: int|
                0 <= j < self.capacity() && !slot_states(self.active_slots).contains_key(
                    j as usize,
                ) implies #[trigger] self.resources@[j] is None by {
                if j != id {
                    assert(old(self).resources@[j] is None);
                }
            }
            assert forall|k: usize| #[trigger]
                slot_states(self.active_slots).contains_key(k) implies k < self.capacity()
                && slot_states(self.active_slots)[k] == (self.resources@[k as int] is Some) by {
                assert(slot_states(old(self).active_slots).contains_key(k));
            }
            assert(self.free().union(self.slots().dom()) =~= ids_below(self.capacity())) by {
                assert forall|k: usize| self.free().union(self.slots().dom()).contains(k)
                    == ids_below(self.capacity()).contains(k) by {
                    assert(old(self).free().union(old(self).slots().dom()).contains(k)
                        == ids_below(old(self).capacity()).contains(k));
                }
            }
        }
        taken
    }
}

} // verus!

verus! {

/// A table of `capacity` ids of which the first `k` are in use, and the
/// others free, hands out the id `k` next. While `k` is below the capacity
/// the capacity stays; when `k` is the capacity, the capacity doubles.
/// Either way the ids from `k + 1` up to the capacity are free afterwards.
/// Starting from a new table, whose ids are all free, the ids are thus
/// handed out in order.
pub proof fn lemma_ids_in_order(free: Set<usize>, capacity: usize, k: usize, id: usize)
    requires
        capacity >= 1,
        k <= capacity,
        free =~= ids_between(k as int, capacity as int),
        is_least(grown_free(free, capacity), id),
    ensures
        id == k,
        grown_capacity(free, capacity) == if k == capacity {
            2 * capacity
        } else {
            capacity as int
        },
        grown_free(free, capacity).remove(id) =~= ids_between(
            k + 1,
            grown_capacity(free, capacity),
        ),
{
    if k < capacity {
        assert(free.contains(k));
        assert(!free.is_empty());
    } else {
        assert(free =~= Set::<usize>::empty());
        assert(free.is_empty());
        assert(grown_free(free, capacity).contains(capacity));
    }
    if grown_free(free, capacity).contains(k) {
        assert(id <= k);
    }
}

/// Reserving an id, giving it a resource and removing it again leaves the
/// id free and the slots as they were.
pub proof fn lemma_reserve_remove_round_trip<T>(
    free: Set<usize>,
    capacity: usize,
    slots: Map<usize, Option<T>>,
    id: usize,
    data: T,
)
    requires
        is_least(grown_free(free, capacity), id),
        !slots.contains_key(id),
    ensures
        grown_free(free, capacity).remove(id).insert(id) == grown_free(free, capacity),
        grown_free(free, capacity).remove(id).insert(id).contains(id),
        slots.insert(id, None).insert(id, Some(data)).remove(id) == slots,
{
    assert(grown_free(free, capacity).remove(id).insert(id) =~= grown_free(free, capacity));
    assert(slots.insert(id, None).insert(id, Some(data)).remove(id) =~= slots);
}

} // verus!
