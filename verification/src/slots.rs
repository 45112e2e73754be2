//! The raw slot store backend: one optional value per index, auto-growing,
//! bounds-checked. The tracking layer owns two of these, one for the live
//! values and one for the last-reset snapshots.

use crate::dirty::{bitset_contains, bitset_elems, MAX_SLOT_ID};
use vstd::pervasive::VecAdditionalExecFns;
use vstd::prelude::*;

verus! {

/// A slot-indexed value store, modelled as a partial map from slot id to
/// value. Reads and removals assume the id is populated; the caller is
/// responsible for liveness.
pub struct SlotStorage<C> {
    slots: Vec<Option<C>>,
}

impl<C> View for SlotStorage<C> {
    type V = Map<u32, C>;

    closed spec fn view(&self) -> Map<u32, C> {
        Map::new(
            |id: u32| (id as int) < self.slots@.len() && self.slots@[id as int] is Some,
            |id: u32| self.slots@[id as int]->0,
        )
    }
}

impl<C> SlotStorage<C> {
    /// The store never allocates a slot at or beyond `MAX_SLOT_ID`.
    pub closed spec fn inv(&self) -> bool {
        self.slots@.len() <= MAX_SLOT_ID
    }

    pub fn new() -> (r: Self)
        ensures
            r@ == Map::<u32, C>::empty(),
            r.inv(),
    {
        let r = SlotStorage { slots: Vec::new() };
        proof {
            assert(r@ =~= Map::<u32, C>::empty());
        }
        r
    }

    /// Whether the slot at `id` currently holds a value.
    pub fn contains(&self, id: u32) -> (r: bool)
        ensures
            r == self@.dom().contains(id),
    {
        (id as usize) < self.slots.len() && self.slots[id as usize].is_some()
    }

    /// Reads the value at a populated slot.
    pub fn get(&self, id: u32) -> (r: &C)
        requires
            self@.dom().contains(id),
        ensures
            *r == self@[id],
    {
        match &self.slots[id as usize] {
            Some(v) => v,
            None => vstd::pervasive::unreached(),
        }
    }

    /// Hands out mutable access to a populated slot. The store's map ends up
    /// holding whatever the caller leaves behind the reference.
    pub fn get_mut(&mut self, id: u32) -> (r: &mut C)
        requires
            old(self)@.dom().contains(id),
        ensures
            *r == old(self)@[id],
            final(self)@.dom() =~= old(self)@.dom(),
            final(self)@[id] == *final(r),
            forall|j: u32|
                j != id && old(self)@.dom().contains(j) ==> final(self)@[j] == old(self)@[j],
            final(self).inv() <==> old(self).inv(),
    {
        let slot = &mut self.slots[id as usize];
        match slot.as_mut() {
            Some(r) => r,
            None => vstd::pervasive::unreached(),
        }
    }

    /// Writes `value` at `id`, growing the store with empty slots as needed.
    /// An already-populated slot is overwritten.
    pub fn insert(&mut self, id: u32, value: C)
        requires
            id < MAX_SLOT_ID,
            old(self).inv(),
        ensures
            final(self)@ == old(self)@.insert(id, value),
            final(self).inv(),
    {
        let ind = id as usize;
        while self.slots.len() <= ind
            invariant
                ind < MAX_SLOT_ID,
                self.slots@.len() >= old(self).slots@.len(),
                self.slots@.len() <= old(self).slots@.len() || self.slots@.len() <= ind + 1,
                forall|j: int|
                    0 <= j < old(self).slots@.len() ==> self.slots@[j] == old(self).slots@[j],
                forall|j: int|
                    old(self).slots@.len() <= j < self.slots@.len() ==> self.slots@[j] is None,
            decreases ind + 1 - self.slots.len(),
        {
            self.slots.push(None);
        }
        self.slots.set(ind, Some(value));
        proof {
            assert(self@ =~= old(self)@.insert(id, value));
        }
    }

    /// Removes and returns the value at a populated slot.
    pub fn remove(&mut self, id: u32) -> (r: C)
        requires
            old(self)@.dom().contains(id),
        ensures
            r == old(self)@[id],
            final(self)@ == old(self)@.remove(id),
            final(self).inv() <==> old(self).inv(),
    {
        let ind = id as usize;
        let mut taken: Option<C> = None;
        self.slots.set_and_swap(ind, &mut taken);
        proof {
            assert(self@ =~= old(self)@.remove(id));
        }
        match taken {
            Some(v) => v,
            None => vstd::pervasive::unreached(),
        }
    }

    /// Reclaims every slot whose id the `keep` set does not hold; slots whose
    /// id it holds are untouched. The predicate "is still in use" is handed
    /// over as the set of ids it accepts.
    pub fn clean(&mut self, keep: &hibitset::BitSet)
        requires
            old(self).inv(),
        ensures
            final(self).inv(),
            forall|id: u32| #[trigger]
                final(self)@.dom().contains(id) <==> old(self)@.dom().contains(id)
                    && bitset_elems(*keep).contains(id),
            forall|id: u32|
                final(self)@.dom().contains(id) ==> final(self)@[id] == old(self)@[id],
    {
        let n = self.slots.len();
        let mut i: usize = 0;
        while i < n
            invariant
                i <= n,
                n == self.slots@.len(),
                n == old(self).slots@.len(),
                n <= MAX_SLOT_ID,
                forall|j: int| i <= j < n ==> self.slots@[j] == old(self).slots@[j],
                forall|j: int|
                    0 <= j < i ==> (self.slots@[j] is Some <==> old(self).slots@[j] is Some
                        && bitset_elems(*keep).contains(j as u32)),
                forall|j: int|
                    0 <= j < i && self.slots@[j] is Some ==> self.slots@[j] == old(
                        self,
                    ).slots@[j],
            decreases n - i,
        {
            if !bitset_contains(keep, i as u32) {
                self.slots.set(i, None);
            }
            i += 1;
        }
    }
}

} // verus!
