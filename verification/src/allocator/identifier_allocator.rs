//! An allocator of identifiers from a fixed range.

use vstd::prelude::*;
use std::collections::BTreeSet;
use crate::common::resource_table::{ids_below, is_least, pop_smallest};

verus! {

/// The identifiers that are free.
pub struct IdentifierAllocator {
    tracker: BTreeSet<usize>,
}

impl IdentifierAllocator {
    /// The identifiers that are free.
    pub closed spec fn free(&self) -> Set<usize> {
        self.tracker@
    }

    /// An allocator of the identifiers below `capacity`, all free.
    pub fn new(capacity: usize) -> (r: Self)
        ensures
            r.free() == ids_below(capacity),
    {
        let mut tracker: BTreeSet<usize> = BTreeSet::new();
        let mut id: usize = 0;
        assert(tracker@ =~= ids_below(0));
        while id < capacity
            invariant
                id <= capacity,
                tracker@ == ids_below(id),
            decreases capacity - id,
        {
            tracker.insert(id);
            id = id + 1;
            assert(tracker@ =~= ids_below(id));
        }
        Self { tracker }
    }

    /// Takes the smallest free identifier.
    pub fn allocate(&mut self) -> (id: usize)
        requires
            !old(self).free().is_empty(),
        ensures
            is_least(old(self).free(), id),
            final(self).free() == old(self).free().remove(id),
    {
        match pop_smallest(&mut self.tracker) {
            Some(id) => id,
            None => {
                // An identifier is free.
                0
            },
        }
    }

    /// Makes `id`, which is taken, free again.
    pub fn deallocate(&mut self, id: usize)
        requires
            !old(self).free().contains(id),
        ensures
            final(self).free() == old(self).free().insert(id),
    {
        self.tracker.insert(id);
    }
}

} // verus!
