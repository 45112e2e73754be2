//! The user-facing handle: a liveness mask paired with the tracked storage.
//! Inserting at a live id overwrites the value directly (an untracked,
//! in-place mutation, visible only to the maintenance pass); inserting at a
//! free id and removing a live id are the tracked structural operations. The
//! mask doubles as the live-id set that the maintenance pass walks.

use crate::change::{merge, Change};
use crate::dirty::{bitset_add, bitset_elems, bitset_new, bitset_remove, MAX_SLOT_ID};
use crate::events::{events_of, ChangeEvents};
use crate::tracking::{lemma_wf_log_len, log_tag, TrackedStorage};
use vstd::pervasive::cloned;
use vstd::prelude::*;
use vstd::std_specs::cmp::PartialEqSpec;

verus! {

/// A slot-indexed value store with change tracking and a liveness mask.
pub struct Storage<C> {
    mask: hibitset::BitSet,
    inner: TrackedStorage<C>,
}

impl<C> Storage<C> {
    /// The live values.
    pub closed spec fn live(self) -> Map<u32, C> {
        self.inner.live()
    }

    /// The last-reset snapshots.
    pub closed spec fn baseline(self) -> Map<u32, C> {
        self.inner.baseline()
    }

    /// The dirty set.
    pub closed spec fn dirty(self) -> Set<u32> {
        self.inner.dirty()
    }

    /// The change log.
    pub closed spec fn log(self) -> Seq<Change> {
        self.inner.log()
    }

    /// The tag currently recorded for `id`.
    pub open spec fn tag_of(self, id: u32) -> Change {
        log_tag(self.log(), id)
    }

    /// The raw events recorded since the last reset.
    pub closed spec fn history(self) -> Seq<(u32, Change)> {
        self.inner.history()
    }

    /// The inner tracked storage is consistent and the mask holds exactly
    /// the live ids.
    pub closed spec fn wf(self) -> bool {
        &&& self.inner.wf()
        &&& forall|id: u32| #[trigger]
            bitset_elems(self.mask).contains(id) <==> self.inner.live().dom().contains(id)
    }
}

impl<C: Clone> Storage<C> {
    /// An empty storage.
    pub fn new() -> (r: Self)
        ensures
            r.wf(),
            r.live() == Map::<u32, C>::empty(),
            r.baseline() == Map::<u32, C>::empty(),
            r.dirty() == Set::<u32>::empty(),
            r.log() == Seq::<Change>::empty(),
            r.history() == Seq::<(u32, Change)>::empty(),
    {
        Storage { mask: bitset_new(), inner: TrackedStorage::new() }
    }

    /// Whether `id` currently holds a live value.
    pub fn contains(&self, id: u32) -> (r: bool)
        ensures
            r == self.live().dom().contains(id),
    {
        self.inner.contains(id)
    }

    /// Reads the live value at `id`.
    pub fn get(&self, id: u32) -> (r: &C)
        requires
            self.live().dom().contains(id),
        ensures
            *r == self.live()[id],
    {
        self.inner.get(id)
    }

    /// Writes `value` at `id`. A free id gets a tracked insertion (dirty
    /// mark, `Inserted` event, snapshot). A live id is overwritten in place,
    /// with no tracking side effect: the change stays invisible until the
    /// maintenance pass compares the value against its snapshot.
    pub fn insert(&mut self, id: u32, value: C)
        requires
            old(self).wf(),
            id < MAX_SLOT_ID,
        ensures
            final(self).wf(),
            final(self).live() == old(self).live().insert(id, value),
            old(self).live().dom().contains(id) ==> {
                &&& final(self).log() == old(self).log()
                &&& final(self).dirty() == old(self).dirty()
                &&& final(self).baseline() == old(self).baseline()
                &&& final(self).history() == old(self).history()
            },
            !old(self).live().dom().contains(id) ==> {
                &&& final(self).tag_of(id) == merge(old(self).tag_of(id), Change::Inserted)
                &&& forall|j: u32| j != id ==> final(self).tag_of(j) == old(self).tag_of(j)
                &&& final(self).dirty() == old(self).dirty().insert(id)
                &&& cloned(value, final(self).baseline()[id])
                &&& forall|j: u32|
                    j != id && old(self).baseline().dom().contains(j) ==> final(self).baseline()[j] == old(self).baseline()[j]
                &&& final(self).history() == old(self).history().push((id, Change::Inserted))
            },
    {
        if self.inner.contains(id) {
            let r = self.inner.get_mut(id);
            *r = value;
            proof {
                assert(self.inner.live() =~= old(self).inner.live().insert(id, value));
            }
        } else {
            bitset_add(&mut self.mask, id);
            self.inner.insert(id, value);
            proof {
                assert forall|j: u32| (#[trigger] bitset_elems(self.mask).contains(j)
                    <==> self.inner.live().dom().contains(j)) by {
                    assert(bitset_elems(old(self).mask).contains(j) <==> old(
                        self,
                    ).inner.live().dom().contains(j));
                }
                assert forall|j: u32| j != id implies self.tag_of(j) == old(self).tag_of(
                    j,
                ) by {
                    assert(self.inner.tag_of(j) == old(self).inner.tag_of(j));
                }
            }
        }
    }

    /// Removes the value at `id`, if it is live; a free id is left alone and
    /// answered with `None`.
    pub fn remove(&mut self, id: u32) -> (r: Option<C>)
        requires
            old(self).wf(),
        ensures
            final(self).wf(),
            final(self).live() == old(self).live().remove(id),
            old(self).live().dom().contains(id) ==> {
                &&& r == Some(old(self).live()[id])
                &&& final(self).tag_of(id) == merge(old(self).tag_of(id), Change::Removed)
                &&& forall|j: u32| j != id ==> final(self).tag_of(j) == old(self).tag_of(j)
                &&& final(self).dirty() == old(self).dirty().remove(id)
                &&& final(self).baseline() == old(self).baseline().remove(id)
                &&& final(self).history() == old(self).history().push((id, Change::Removed))
            },
            !old(self).live().dom().contains(id) ==> {
                &&& r is None
                &&& final(self).log() == old(self).log()
                &&& final(self).dirty() == old(self).dirty()
                &&& final(self).baseline() == old(self).baseline()
                &&& final(self).history() == old(self).history()
            },
    {
        if self.inner.contains(id) {
            bitset_remove(&mut self.mask, id);
            let v = self.inner.remove(id);
            proof {
                assert forall|j: u32| (#[trigger] bitset_elems(self.mask).contains(j)
                    <==> self.inner.live().dom().contains(j)) by {
                    assert(bitset_elems(old(self).mask).contains(j) <==> old(
                        self,
                    ).inner.live().dom().contains(j));
                }
                assert forall|j: u32| j != id implies self.tag_of(j) == old(self).tag_of(
                    j,
                ) by {
                    assert(self.inner.tag_of(j) == old(self).inner.tag_of(j));
                }
            }
            Some(v)
        } else {
            proof {
                assert(self.live() =~= old(self).live().remove(id));
            }
            None
        }
    }

    /// Consumer-facing accessor: the dirty set, as a bitset holding every id
    /// inserted or modified since the last reset.
    pub fn changed_tracked(&self) -> (r: &hibitset::BitSet)
        ensures
            bitset_elems(*r) == self.dirty(),
    {
        self.inner.changed_tracked()
    }

    /// Consumer-facing accessor: a restartable reader over the change events
    /// recorded since the last reset, ascending by id.
    pub fn change_events_tracked(&self) -> (r: ChangeEvents)
        requires
            self.wf(),
        ensures
            r.sequence() == events_of(self.log()),
            r.position() == 0,
    {
        proof {
            lemma_wf_log_len(self.inner);
        }
        self.inner.change_events_tracked()
    }

    /// Consumer-facing accessor: closes the epoch. Re-baselines the snapshot
    /// of every dirty id, clears the dirty set and blanks the change log.
    pub fn reset_tracked(&mut self)
        requires
            old(self).wf(),
        ensures
            final(self).wf(),
            final(self).dirty() == Set::<u32>::empty(),
            forall|j: u32| final(self).tag_of(j) == Change::Unchanged,
            final(self).history() == Seq::<(u32, Change)>::empty(),
            final(self).live() == old(self).live(),
            forall|j: u32|
                old(self).dirty().contains(j) ==> cloned(
                    old(self).live()[j],
                    final(self).baseline()[j],
                ),
            forall|j: u32|
                !old(self).dirty().contains(j) && old(self).baseline().dom().contains(j)
                    ==> final(self).baseline()[j] == old(self).baseline()[j],
    {
        self.inner.reset_tracked();
        proof {
            assert forall|j: u32| #[trigger] self.tag_of(j) == Change::Unchanged by {
                assert(self.inner.tag_of(j) == Change::Unchanged);
            }
            assert forall|j: u32| old(self).dirty().contains(j) implies cloned(
                old(self).live()[j],
                self.baseline()[j],
            ) by {
                assert(old(self).inner.dirty().contains(j) ==> cloned(
                    old(self).inner.live()[j],
                    self.inner.baseline()[j],
                ));
            }
            assert forall|j: u32|
                !old(self).dirty().contains(j) && old(self).baseline().dom().contains(j)
                implies self.baseline()[j] == old(self).baseline()[j] by {
                assert(!old(self).inner.dirty().contains(j) && old(
                    self,
                ).inner.baseline().dom().contains(j) ==> self.inner.baseline()[j] == old(
                    self,
                ).inner.baseline()[j]);
            }
            assert forall|j: u32| (#[trigger] bitset_elems(self.mask).contains(j)
                <==> self.inner.live().dom().contains(j)) by {
                assert(bitset_elems(old(self).mask).contains(j) <==> old(
                    self,
                ).inner.live().dom().contains(j));
            }
        }
    }
}

impl<C: Clone + PartialEq> Storage<C> {
    /// Consumer-facing accessor: the maintenance pass. Compares every live
    /// value against its snapshot and folds in a `Modified` event where they
    /// differ, marking the id dirty. When the component's equality obeys its
    /// specification, exactly the in-place-changed ids are promoted.
    pub fn maintain_tracked(&mut self)
        requires
            old(self).wf(),
        ensures
            final(self).wf(),
            final(self).live() == old(self).live(),
            final(self).baseline() == old(self).baseline(),
            forall|j: u32|
                !old(self).live().dom().contains(j) ==> final(self).tag_of(j) == old(
                    self,
                ).tag_of(j),
            forall|j: u32|
                final(self).tag_of(j) == old(self).tag_of(j) || final(self).tag_of(j) == merge(
                    old(self).tag_of(j),
                    Change::Modified,
                ),
            C::obeys_eq_spec() ==> forall|j: u32|
                final(self).tag_of(j) == (if old(self).live().dom().contains(j) && !old(
                    self,
                ).baseline()[j].eq_spec(&old(self).live()[j]) {
                    merge(old(self).tag_of(j), Change::Modified)
                } else {
                    old(self).tag_of(j)
                }),
    {
        self.inner.maintain_tracked(&self.mask);
        proof {
            if C::obeys_eq_spec() {
                assert forall|j: u32| self.tag_of(j) == (if old(self).live().dom().contains(j)
                    && !old(self).baseline()[j].eq_spec(&old(self).live()[j]) {
                    merge(old(self).tag_of(j), Change::Modified)
                } else {
                    old(self).tag_of(j)
                }) by {
                    assert(bitset_elems(old(self).mask).contains(j) <==> old(
                        self,
                    ).inner.live().dom().contains(j));
                }
            }
            assert forall|j: u32| (#[trigger] bitset_elems(self.mask).contains(j)
                <==> self.inner.live().dom().contains(j)) by {
                assert(bitset_elems(old(self).mask).contains(j) <==> old(
                    self,
                ).inner.live().dom().contains(j));
            }
            assert forall|j: u32| !old(self).live().dom().contains(j)
                implies self.tag_of(j) == old(self).tag_of(j) by {
                assert(bitset_elems(old(self).mask).contains(j) <==> old(
                    self,
                ).inner.live().dom().contains(j));
                if !bitset_elems(old(self).mask).contains(j) {
                    assert(self.inner.tag_of(j) == old(self).inner.tag_of(j));
                }
            }
            assert forall|j: u32| (self.tag_of(j) == old(self).tag_of(j) || self.tag_of(j)
                == merge(old(self).tag_of(j), Change::Modified)) by {
                assert(self.inner.tag_of(j) == old(self).inner.tag_of(j) || self.inner.tag_of(
                    j,
                ) == merge(old(self).inner.tag_of(j), Change::Modified));
            }
        }
    }
}

} // verus!
