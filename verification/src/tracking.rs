//! The tracking wrapper around the slot store: a change log, a dirty set and
//! a snapshot store, kept consistent by every structural operation, with a
//! maintenance pass for detected modifications and a reset that closes the
//! epoch.

use crate::change::{fold_merge, fold_ok, lemma_fold_merge_step, merge, merge_ok, Change};
use crate::dirty::{
    bitset_add, bitset_clear, bitset_elems, bitset_new, bitset_remove, bitset_to_vec, MAX_SLOT_ID,
};
use crate::events::{events_of, lemma_events_of_single, lemma_events_of_unchanged, ChangeEvents};
use crate::slots::SlotStorage;
use vstd::pervasive::cloned;
use vstd::prelude::*;
use vstd::seq_lib::lemma_seq_contains_after_push;
use vstd::std_specs::cmp::PartialEqSpec;

verus! {

broadcast use lemma_seq_contains_after_push;

/// The tag recorded in `log` for `id`; indices beyond the log's length are
/// `Unchanged`, matching the log's auto-growing behaviour.
pub open spec fn log_tag(log: Seq<Change>, id: u32) -> Change {
    if (id as int) < log.len() {
        log[id as int]
    } else {
        Change::Unchanged
    }
}

/// The raw events recorded for `id`, in order, within the whole event
/// history `history`.
pub open spec fn events_for(id: u32, history: Seq<(u32, Change)>) -> Seq<Change>
    decreases history.len(),
{
    if history.len() == 0 {
        Seq::empty()
    } else {
        let pre = events_for(id, history.drop_last());
        if history.last().0 == id {
            pre.push(history.last().1)
        } else {
            pre
        }
    }
}

/// Appending one raw event to the history extends the per-id event list of
/// its target id by that event, and no other id's list.
pub proof fn lemma_events_for_push(id: u32, history: Seq<(u32, Change)>, ev: (u32, Change))
    ensures
        events_for(id, history.push(ev)) == if ev.0 == id {
            events_for(id, history).push(ev.1)
        } else {
            events_for(id, history)
        },
{
    assert(history.push(ev).drop_last() =~= history);
}

/// A change-tracking wrapper over a slot-indexed value store.
///
/// Structural operations (`insert`, `remove`) update the change log and the
/// dirty set synchronously; in-place mutation through `get_mut` is invisible
/// until `maintain_tracked` compares live values against the snapshots;
/// `reset_tracked` re-baselines the snapshots and closes the epoch.
pub struct TrackedStorage<C> {
    /// All inserted and modified ids are marked.
    changed: hibitset::BitSet,
    changes: Vec<Change>,
    snapshot: SlotStorage<C>,
    storage: SlotStorage<C>,
    history: Ghost<Seq<(u32, Change)>>,
}

impl<C> TrackedStorage<C> {
    /// The dirty set: ids currently holding an `Inserted` or `Modified` tag.
    pub closed spec fn dirty(self) -> Set<u32> {
        bitset_elems(self.changed)
    }

    /// The change log.
    pub closed spec fn log(self) -> Seq<Change> {
        self.changes@
    }

    /// The tag currently recorded for `id`.
    pub open spec fn tag_of(self, id: u32) -> Change {
        log_tag(self.log(), id)
    }

    /// The live store's contents.
    pub closed spec fn live(self) -> Map<u32, C> {
        self.storage@
    }

    /// The snapshot store's contents: each live value as of the last reset,
    /// or as of its insertion if never reset since.
    pub closed spec fn baseline(self) -> Map<u32, C> {
        self.snapshot@
    }

    /// The raw events recorded since the last reset, in order.
    pub closed spec fn history(self) -> Seq<(u32, Change)> {
        self.history@
    }

    /// Internal consistency: the dirty set holds exactly the ids tagged
    /// `Inserted` or `Modified`; those ids are live; `Removed`-tagged ids are
    /// not; snapshot and live store cover the same ids, all below
    /// `MAX_SLOT_ID`; and every tag is the legal left fold of the merge rule
    /// over the raw events recorded for its id.
    pub closed spec fn wf(self) -> bool {
        &&& tracking_wf(
            self.dirty(),
            self.log(),
            self.live().dom(),
            self.baseline().dom(),
            self.history(),
        )
        &&& self.snapshot.inv()
        &&& self.storage.inv()
    }
}

/// The consistency relation among the tracking wrapper's parts: `dirty` the
/// dirty set, `log` the change log, `live_ids` and `base_ids` the id sets of
/// the live and the snapshot store, `history` the raw events of the epoch.
pub open spec fn tracking_wf(
    dirty: Set<u32>,
    log: Seq<Change>,
    live_ids: Set<u32>,
    base_ids: Set<u32>,
    history: Seq<(u32, Change)>,
) -> bool {
    &&& log.len() <= MAX_SLOT_ID
    &&& forall|id: u32|
        #![trigger dirty.contains(id)]
        #![trigger log_tag(log, id)]
        (dirty.contains(id) <==> (log_tag(log, id) == Change::Inserted || log_tag(log, id)
            == Change::Modified))
    &&& forall|id: u32|
        #![trigger log_tag(log, id)]
        #![trigger live_ids.contains(id)]
        ((log_tag(log, id) == Change::Inserted || log_tag(log, id) == Change::Modified)
            ==> live_ids.contains(id))
    &&& forall|id: u32|
        #![trigger log_tag(log, id)]
        #![trigger live_ids.contains(id)]
        (log_tag(log, id) == Change::Removed ==> !live_ids.contains(id))
    &&& forall|id: u32| #[trigger] live_ids.contains(id) ==> id < MAX_SLOT_ID
    &&& forall|id: u32|
        #![trigger base_ids.contains(id)]
        #![trigger live_ids.contains(id)]
        (base_ids.contains(id) <==> live_ids.contains(id))
    &&& forall|id: u32|
        #![trigger log_tag(log, id)]
        (fold_ok(Change::Unchanged, events_for(id, history)) && log_tag(log, id) == fold_merge(
            Change::Unchanged,
            events_for(id, history),
        ))
}

impl<C: Clone> TrackedStorage<C> {
    /// An empty tracked storage: nothing live, nothing dirty, no history.
    pub fn new() -> (r: Self)
        ensures
            r.wf(),
            r.dirty() == Set::<u32>::empty(),
            r.live() == Map::<u32, C>::empty(),
            r.baseline() == Map::<u32, C>::empty(),
            r.log() == Seq::<Change>::empty(),
            r.history() == Seq::<(u32, Change)>::empty(),
    {
        let r = TrackedStorage {
            changed: bitset_new(),
            changes: Vec::new(),
            snapshot: SlotStorage::new(),
            storage: SlotStorage::new(),
            history: Ghost(Seq::empty()),
        };
        proof {
            assert forall|id: u32| #[trigger] r.tag_of(id) == fold_merge(
                Change::Unchanged,
                events_for(id, r.history()),
            ) && fold_ok(Change::Unchanged, events_for(id, r.history())) by {
                assert(events_for(id, r.history()) =~= Seq::<Change>::empty());
            }
        }
        r
    }

    /// Grows the log with `Unchanged` entries as needed, then folds `val`
    /// into the tag at index `id`.
    fn insert_change(changes: &mut Vec<Change>, id: u32, val: Change)
        requires
            id < MAX_SLOT_ID,
            old(changes)@.len() <= MAX_SLOT_ID,
            merge_ok(log_tag(old(changes)@, id), val),
        ensures
            final(changes)@.len() <= MAX_SLOT_ID,
            final(changes)@.len() == if (id as int) < old(changes)@.len() {
                old(changes)@.len() as int
            } else {
                id as int + 1
            },
            log_tag(final(changes)@, id) == merge(log_tag(old(changes)@, id), val),
            forall|j: u32| j != id ==> log_tag(final(changes)@, j) == log_tag(old(changes)@, j),
    {
        let ind = id as usize;
        while changes.len() <= ind
            invariant
                ind == id as usize,
                id < MAX_SLOT_ID,
                changes@.len() >= old(changes)@.len(),
                changes@.len() <= old(changes)@.len() || changes@.len() <= ind + 1,
                forall|j: int|
                    0 <= j < old(changes)@.len() ==> changes@[j] == old(changes)@[j],
                forall|j: int|
                    old(changes)@.len() <= j < changes@.len() ==> changes@[j]
                        == Change::Unchanged,
            decreases ind + 1 - changes.len(),
        {
            changes.push(Change::Unchanged);
        }
        let mut cur = changes[ind];
        cur.add(val);
        changes.set(ind, cur);
    }

    /// Inserts `value` at the not-currently-live id `id`: marks the id dirty,
    /// records an `Inserted` event, snapshots a copy of the value and writes
    /// the value into the live store.
    pub fn insert(&mut self, id: u32, value: C)
        requires
            old(self).wf(),
            !old(self).live().dom().contains(id),
            id < MAX_SLOT_ID,
        ensures
            final(self).wf(),
            final(self).live() == old(self).live().insert(id, value),
            cloned(value, final(self).baseline()[id]),
            forall|j: u32|
                j != id && old(self).baseline().dom().contains(j) ==> final(self).baseline()[j]
                    == old(self).baseline()[j],
            final(self).tag_of(id) == merge(old(self).tag_of(id), Change::Inserted),
            forall|j: u32| j != id ==> final(self).tag_of(j) == old(self).tag_of(j),
            final(self).dirty() == old(self).dirty().insert(id),
            final(self).history() == old(self).history().push((id, Change::Inserted)),
    {
        proof {
            // the id is not live, so its tag is `Unchanged` or `Removed` and
            // an `Inserted` event is a legal transition
            assert(merge_ok(old(self).tag_of(id), Change::Inserted));
        }
        bitset_add(&mut self.changed, id);
        Self::insert_change(&mut self.changes, id, Change::Inserted);
        let snap = value.clone();
        self.snapshot.insert(id, snap);
        self.storage.insert(id, value);
        proof {
            let h0 = old(self).history@;
            self.history@ = h0.push((id, Change::Inserted));
            assert forall|j: u32|
                #![trigger log_tag(self.log(), j)]
                (fold_ok(Change::Unchanged, events_for(j, self.history@)) && log_tag(
                self.log(),
                j,
            ) == fold_merge(Change::Unchanged, events_for(j, self.history@))) by {
                assert(old(self).tag_of(j) == fold_merge(Change::Unchanged, events_for(j, h0))
                    && fold_ok(Change::Unchanged, events_for(j, h0)));
                lemma_events_for_push(j, h0, (id, Change::Inserted));
                if j == id {
                    lemma_fold_merge_step(Change::Unchanged, events_for(j, h0), Change::Inserted);
                    assert(self.tag_of(j) == merge(old(self).tag_of(j), Change::Inserted));
                } else {
                    assert(self.tag_of(j) == old(self).tag_of(j));
                }
            }
        }
    }

    /// Removes and returns the value at the live id `id`: unmarks the id in
    /// the dirty set, records a `Removed` event, and drops the snapshot and
    /// the live entry together.
    pub fn remove(&mut self, id: u32) -> (r: C)
        requires
            old(self).wf(),
            old(self).live().dom().contains(id),
        ensures
            final(self).wf(),
            r == old(self).live()[id],
            final(self).live() == old(self).live().remove(id),
            final(self).baseline() == old(self).baseline().remove(id),
            final(self).tag_of(id) == merge(old(self).tag_of(id), Change::Removed),
            forall|j: u32| j != id ==> final(self).tag_of(j) == old(self).tag_of(j),
            final(self).dirty() == old(self).dirty().remove(id),
            final(self).history() == old(self).history().push((id, Change::Removed)),
    {
        proof {
            // a live id is never tagged `Removed`, so a `Removed` event is a
            // legal transition
            assert(merge_ok(old(self).tag_of(id), Change::Removed));
        }
        bitset_remove(&mut self.changed, id);
        Self::insert_change(&mut self.changes, id, Change::Removed);
        let _ = self.snapshot.remove(id);
        let r = self.storage.remove(id);
        proof {
            let h0 = old(self).history@;
            self.history@ = h0.push((id, Change::Removed));
            assert forall|j: u32|
                #![trigger log_tag(self.log(), j)]
                (fold_ok(Change::Unchanged, events_for(j, self.history@)) && log_tag(
                self.log(),
                j,
            ) == fold_merge(Change::Unchanged, events_for(j, self.history@))) by {
                assert(old(self).tag_of(j) == fold_merge(Change::Unchanged, events_for(j, h0))
                    && fold_ok(Change::Unchanged, events_for(j, h0)));
                lemma_events_for_push(j, h0, (id, Change::Removed));
                if j == id {
                    lemma_fold_merge_step(Change::Unchanged, events_for(j, h0), Change::Removed);
                    assert(self.tag_of(j) == merge(old(self).tag_of(j), Change::Removed));
                } else {
                    assert(self.tag_of(j) == old(self).tag_of(j));
                }
            }
        }
        r
    }

    /// Whether `id` currently holds a live value.
    pub fn contains(&self, id: u32) -> (r: bool)
        ensures
            r == self.live().dom().contains(id),
    {
        self.storage.contains(id)
    }

    /// Reads the live value at `id`; no tracking side effect.
    pub fn get(&self, id: u32) -> (r: &C)
        requires
            self.live().dom().contains(id),
        ensures
            *r == self.live()[id],
    {
        self.storage.get(id)
    }

    /// Hands out mutable access to the live value at `id`; no tracking side
    /// effect. This is precisely why an in-place modification is invisible
    /// until `maintain_tracked` runs.
    pub fn get_mut(&mut self, id: u32) -> (r: &mut C)
        requires
            old(self).wf(),
            old(self).live().dom().contains(id),
        ensures
            final(self).wf(),
            *r == old(self).live()[id],
            final(self).live().dom() == old(self).live().dom(),
            final(self).live()[id] == *final(r),
            forall|j: u32|
                j != id && old(self).live().dom().contains(j) ==> final(self).live()[j] == old(
                    self,
                ).live()[j],
            final(self).baseline() == old(self).baseline(),
            final(self).log() == old(self).log(),
            final(self).dirty() == old(self).dirty(),
            final(self).history() == old(self).history(),
    {
        self.storage.get_mut(id)
    }

    /// The dirty set, as the backing bitset: all ids inserted or modified
    /// since the last reset.
    pub fn changed(&self) -> (r: &hibitset::BitSet)
        ensures
            bitset_elems(*r) == self.dirty(),
    {
        &self.changed
    }

    /// Consumer-facing accessor for the dirty set.
    pub fn changed_tracked(&self) -> (r: &hibitset::BitSet)
        ensures
            bitset_elems(*r) == self.dirty(),
    {
        self.changed()
    }

    /// A restartable reader over the change events recorded since the last
    /// reset: one `(id, tag)` pair per pending log entry, ascending by id.
    /// The result is a function of the change log alone, so reading it twice
    /// without an intervening mutation hands out identical sequences.
    pub fn change_events(&self) -> (r: ChangeEvents)
        requires
            self.log().len() <= MAX_SLOT_ID,
        ensures
            r.sequence() == events_of(self.log()),
            r.position() == 0,
    {
        let n = self.changes.len();
        let mut evs: Vec<(u32, Change)> = Vec::new();
        let mut i: usize = 0;
        while i < n
            invariant
                i <= n,
                n == self.changes@.len(),
                n <= MAX_SLOT_ID,
                evs@ == events_of(self.changes@.take(i as int)),
            decreases n - i,
        {
            let c = self.changes[i];
            proof {
                assert(self.changes@.take((i + 1) as int).drop_last() =~= self.changes@.take(
                    i as int,
                ));
                assert(self.changes@.take((i + 1) as int).last() == self.changes@[i as int]);
            }
            match c {
                Change::Unchanged => {},
                _ => {
                    evs.push((i as u32, c));
                },
            }
            i += 1;
        }
        proof {
            assert(self.changes@.take(n as int) =~= self.changes@);
        }
        ChangeEvents::new(evs)
    }

    /// Consumer-facing accessor for the event sequence.
    pub fn change_events_tracked(&self) -> (r: ChangeEvents)
        requires
            self.log().len() <= MAX_SLOT_ID,
        ensures
            r.sequence() == events_of(self.log()),
            r.position() == 0,
    {
        self.change_events()
    }

    /// Closes the epoch: copies the live value of every dirty id into the
    /// snapshot store (re-baselining modification detection), clears the
    /// dirty set, and blanks the whole change log, including `Removed`
    /// entries that were absent from the dirty set.
    pub fn reset(&mut self)
        requires
            old(self).wf(),
        ensures
            final(self).wf(),
            final(self).dirty() == Set::<u32>::empty(),
            forall|j: u32| final(self).tag_of(j) == Change::Unchanged,
            final(self).log().len() == old(self).log().len(),
            final(self).history() == Seq::<(u32, Change)>::empty(),
            final(self).live() == old(self).live(),
            final(self).baseline().dom() == old(self).baseline().dom(),
            forall|j: u32|
                old(self).dirty().contains(j) ==> cloned(
                    old(self).live()[j],
                    final(self).baseline()[j],
                ),
            forall|j: u32|
                !old(self).dirty().contains(j) && old(self).baseline().dom().contains(j)
                    ==> final(self).baseline()[j] == old(self).baseline()[j],
    {
        let ids = bitset_to_vec(self.changed());
        let n = ids.len();
        let mut i: usize = 0;
        while i < n
            invariant
                old(self).wf(),
                self.wf(),
                i <= n,
                n == ids@.len(),
                forall|id: u32| #[trigger] ids@.contains(id) <==> old(self).dirty().contains(id),
                self.changed == old(self).changed,
                self.changes == old(self).changes,
                self.storage == old(self).storage,
                self.history@ == old(self).history@,
                self.baseline().dom() == old(self).baseline().dom(),
                forall|j: u32|
                    ids@.take(i as int).contains(j) ==> cloned(
                        old(self).live()[j],
                        self.baseline()[j],
                    ),
                forall|j: u32|
                    !ids@.take(i as int).contains(j) && old(self).baseline().dom().contains(j)
                        ==> self.baseline()[j] == old(self).baseline()[j],
            decreases n - i,
        {
            let id = ids[i];
            proof {
                assert(ids@.contains(id));
                assert(old(self).dirty().contains(id));
                assert(old(self).tag_of(id) == Change::Inserted || old(self).tag_of(id)
                    == Change::Modified);
                assert(old(self).live().dom().contains(id));
            }
            let v = self.storage.get(id).clone();
            self.snapshot.insert(id, v);
            i += 1;
            proof {
                assert(self.snapshot@.dom() =~= old(self).snapshot@.dom());
                assert(ids@.take(i as int) =~= ids@.take((i - 1) as int).push(id));
            }
        }
        proof {
            assert(ids@.take(n as int) =~= ids@);
        }
        bitset_clear(&mut self.changed);
        let ghost mid = *self;
        let m = self.changes.len();
        let mut k: usize = 0;
        while k < m
            invariant
                k <= m,
                m == self.changes@.len(),
                self.changed == mid.changed,
                self.snapshot == mid.snapshot,
                self.storage == mid.storage,
                self.history@ == mid.history@,
                bitset_elems(self.changed) == Set::<u32>::empty(),
                forall|j: int| 0 <= j < k ==> self.changes@[j] == Change::Unchanged,
                forall|j: int| k <= j < m ==> self.changes@[j] == mid.changes@[j],
            decreases m - k,
        {
            self.changes.set(k, Change::Unchanged);
            k += 1;
        }
        proof {
            self.history@ = Seq::empty();
            assert forall|j: u32| #[trigger] log_tag(self.log(), j) == Change::Unchanged by {}
            assert forall|j: u32|
                #![trigger log_tag(self.log(), j)]
                (fold_ok(Change::Unchanged, events_for(j, self.history@)) && log_tag(
                self.log(),
                j,
            ) == fold_merge(Change::Unchanged, events_for(j, self.history@))) by {
                assert(events_for(j, self.history@) =~= Seq::<Change>::empty());
            }
            assert forall|j: u32| (#[trigger] self.baseline().dom().contains(j)
                <==> self.live().dom().contains(j)) by {
                assert(old(self).baseline().dom().contains(j) <==> old(
                    self,
                ).live().dom().contains(j));
            }
            assert forall|j: u32| #[trigger] self.live().dom().contains(j)
                implies j < MAX_SLOT_ID by {
                assert(old(self).live().dom().contains(j));
            }
            assert(self.wf());
        }
    }

    /// Consumer-facing accessor: closes the epoch; see `reset`.
    pub fn reset_tracked(&mut self)
        requires
            old(self).wf(),
        ensures
            final(self).wf(),
            final(self).dirty() == Set::<u32>::empty(),
            forall|j: u32| final(self).tag_of(j) == Change::Unchanged,
            final(self).log().len() == old(self).log().len(),
            final(self).history() == Seq::<(u32, Change)>::empty(),
            final(self).live() == old(self).live(),
            final(self).baseline().dom() == old(self).baseline().dom(),
            forall|j: u32|
                old(self).dirty().contains(j) ==> cloned(
                    old(self).live()[j],
                    final(self).baseline()[j],
                ),
            forall|j: u32|
                !old(self).dirty().contains(j) && old(self).baseline().dom().contains(j)
                    ==> final(self).baseline()[j] == old(self).baseline()[j],
    {
        self.reset()
    }

    /// Reclaims slots for ids no longer in use: forwards the keep-set to both
    /// the snapshot and the live store, so the two stay in sync. The change
    /// log and the dirty set are deliberately left alone; in exchange, an id
    /// may only be reclaimed while it carries no pending tag. An id removed
    /// through `remove` is no longer live, so this rule does not constrain
    /// it.
    pub fn clean(&mut self, keep: &hibitset::BitSet)
        requires
            old(self).wf(),
            forall|id: u32|
                old(self).live().dom().contains(id) && !bitset_elems(*keep).contains(id) ==> old(
                    self,
                ).tag_of(id) == Change::Unchanged,
        ensures
            final(self).wf(),
            forall|j: u32|
                #![trigger final(self).live().dom().contains(j)]
                (final(self).live().dom().contains(j) <==> old(self).live().dom().contains(j)
                    && bitset_elems(*keep).contains(j)),
            forall|j: u32|
                final(self).live().dom().contains(j) ==> final(self).live()[j] == old(
                    self,
                ).live()[j],
            forall|j: u32|
                #![trigger final(self).baseline().dom().contains(j)]
                (final(self).baseline().dom().contains(j) <==> old(self).baseline().dom().contains(
                    j,
                ) && bitset_elems(*keep).contains(j)),
            forall|j: u32|
                final(self).baseline().dom().contains(j) ==> final(self).baseline()[j] == old(
                    self,
                ).baseline()[j],
            forall|j: u32| final(self).tag_of(j) == old(self).tag_of(j),
            final(self).dirty() == old(self).dirty(),
            final(self).history() == old(self).history(),
    {
        self.snapshot.clean(keep);
        self.storage.clean(keep);
        proof {
            assert forall|j: u32| (#[trigger] self.dirty().contains(j) <==> (self.tag_of(j)
                == Change::Inserted || self.tag_of(j) == Change::Modified)) by {
                assert(old(self).dirty().contains(j) <==> (old(self).tag_of(j)
                    == Change::Inserted || old(self).tag_of(j) == Change::Modified));
            }
            assert forall|j: u32| (#[trigger] self.tag_of(j) == Change::Inserted || self.tag_of(
                j,
            ) == Change::Modified) implies self.live().dom().contains(j) by {
                if self.tag_of(j) == Change::Inserted || self.tag_of(j) == Change::Modified {
                    assert(old(self).tag_of(j) == self.tag_of(j));
                    assert(old(self).live().dom().contains(j));
                    assert(bitset_elems(*keep).contains(j));
                }
            }
            assert forall|j: u32| #[trigger] self.tag_of(j) == Change::Removed
                implies !self.live().dom().contains(j) by {
                assert(old(self).tag_of(j) == Change::Removed ==> !old(
                    self,
                ).live().dom().contains(j));
            }
            assert forall|j: u32| #[trigger] self.live().dom().contains(j)
                implies j < MAX_SLOT_ID by {
                assert(old(self).live().dom().contains(j) ==> j < MAX_SLOT_ID);
            }
            assert forall|j: u32| (#[trigger] self.baseline().dom().contains(j)
                <==> self.live().dom().contains(j)) by {
                assert(old(self).baseline().dom().contains(j) <==> old(
                    self,
                ).live().dom().contains(j));
            }
            assert forall|j: u32| (fold_ok(Change::Unchanged, events_for(j, self.history@))
                && #[trigger] self.tag_of(j) == fold_merge(
                Change::Unchanged,
                events_for(j, self.history@),
            )) by {
                assert(fold_ok(Change::Unchanged, events_for(j, old(self).history@)) && old(
                    self,
                ).tag_of(j) == fold_merge(
                    Change::Unchanged,
                    events_for(j, old(self).history@),
                ));
            }
            assert(self.wf());
        }
    }
}


/// Whether the live value at `id` differs from its last-reset snapshot,
/// by the component type's own equality.
pub open spec fn value_modified<C: PartialEq>(s: TrackedStorage<C>, id: u32) -> bool {
    !s.baseline()[id].eq_spec(&s.live()[id])
}

impl<C: Clone + PartialEq> TrackedStorage<C> {
    /// The maintenance pass: for every id in `live_mask` (the full set of
    /// currently-live ids, supplied by the caller), compares the snapshot
    /// against the live value and folds in a `Modified` event where they
    /// differ, marking the id dirty. When the component's equality obeys its
    /// specification, exactly the ids whose value changed in place are
    /// promoted; the pass never touches an id outside `live_mask` and never
    /// changes a stored value.
    pub fn maintain_tracked(&mut self, live_mask: &hibitset::BitSet)
        requires
            old(self).wf(),
            forall|id: u32| #[trigger]
                bitset_elems(*live_mask).contains(id) ==> old(self).live().dom().contains(id),
        ensures
            final(self).wf(),
            final(self).live() == old(self).live(),
            final(self).baseline() == old(self).baseline(),
            forall|j: u32|
                !bitset_elems(*live_mask).contains(j) ==> final(self).tag_of(j) == old(
                    self,
                ).tag_of(j),
            forall|j: u32|
                final(self).tag_of(j) == old(self).tag_of(j) || final(self).tag_of(j) == merge(
                    old(self).tag_of(j),
                    Change::Modified,
                ),
            C::obeys_eq_spec() ==> forall|j: u32|
                final(self).tag_of(j) == (if bitset_elems(*live_mask).contains(j)
                    && value_modified(*old(self), j) {
                    merge(old(self).tag_of(j), Change::Modified)
                } else {
                    old(self).tag_of(j)
                }),
            old(self).history().len() <= final(self).history().len(),
            final(self).history().take(old(self).history().len() as int) == old(self).history(),
            forall|k: int|
                old(self).history().len() <= k < final(self).history().len() ==> {
                    &&& final(self).history()[k].1 == Change::Modified
                    &&& bitset_elems(*live_mask).contains(final(self).history()[k].0)
                },
    {
        let ids = bitset_to_vec(live_mask);
        proof {
            assert(self.history@.take(old(self).history@.len() as int) =~= old(self).history@);
        }
        let n = ids.len();
        let mut i: usize = 0;
        while i < n
            invariant
                old(self).wf(),
                self.wf(),
                i <= n,
                n == ids@.len(),
                forall|id: u32| #[trigger] ids@.contains(id) <==> bitset_elems(
                    *live_mask,
                ).contains(id),
                forall|a: int, b: int| 0 <= a < b < ids@.len() ==> ids@[a] < ids@[b],
                forall|id: u32| #[trigger]
                    bitset_elems(*live_mask).contains(id) ==> old(self).live().dom().contains(id),
                self.storage == old(self).storage,
                self.snapshot == old(self).snapshot,
                forall|j: u32|
                    !ids@.take(i as int).contains(j) ==> self.tag_of(j) == old(self).tag_of(j),
                forall|j: u32|
                    self.tag_of(j) == old(self).tag_of(j) || self.tag_of(j) == merge(
                        old(self).tag_of(j),
                        Change::Modified,
                    ),
                C::obeys_eq_spec() ==> forall|j: u32|
                    self.tag_of(j) == (if ids@.take(i as int).contains(j) && value_modified(
                        *old(self),
                        j,
                    ) {
                        merge(old(self).tag_of(j), Change::Modified)
                    } else {
                        old(self).tag_of(j)
                    }),
                old(self).history@.len() <= self.history@.len(),
                self.history@.take(old(self).history@.len() as int) == old(self).history@,
                forall|k: int|
                    old(self).history@.len() <= k < self.history@.len() ==> (self.history@[k].1
                        == Change::Modified && bitset_elems(*live_mask).contains(
                        self.history@[k].0,
                    )),
            decreases n - i,
        {
            let id = ids[i];
            proof {
                assert(ids@.contains(id));
                assert(bitset_elems(*live_mask).contains(id));
                assert(old(self).live().dom().contains(id));
                assert(self.live().dom().contains(id));
                assert(self.baseline().dom().contains(id));
                assert(!ids@.take(i as int).contains(id)) by {
                    if ids@.take(i as int).contains(id) {
                        let k = choose|k: int|
                            0 <= k < ids@.take(i as int).len() && ids@.take(i as int)[k] == id;
                        assert(ids@[k] == id);
                        assert(ids@[k] < ids@[i as int]);
                    }
                }
                assert(self.tag_of(id) == old(self).tag_of(id));
            }
            let differs = {
                let a = self.snapshot.get(id);
                let b = self.storage.get(id);
                !(*a == *b)
            };
            let ghost st0 = *self;
            if differs {
                proof {
                    // a live id is never tagged `Removed`, so a `Modified`
                    // event is a legal transition
                    assert(self.tag_of(id) != Change::Removed);
                    assert(merge_ok(self.tag_of(id), Change::Modified));
                }
                bitset_add(&mut self.changed, id);
                Self::insert_change(&mut self.changes, id, Change::Modified);
                proof {
                    let h0 = st0.history@;
                    self.history@ = h0.push((id, Change::Modified));
                    assert(self.history@.take(old(self).history@.len() as int) =~= h0.take(
                        old(self).history@.len() as int,
                    ));
                    assert forall|j: u32|
                        #![trigger log_tag(self.log(), j)]
                        (fold_ok(Change::Unchanged, events_for(j, self.history@)) && log_tag(
                        self.log(),
                        j,
                    ) == fold_merge(Change::Unchanged, events_for(j, self.history@))) by {
                        assert(fold_ok(Change::Unchanged, events_for(j, h0)) && log_tag(
                            st0.log(),
                            j,
                        ) == fold_merge(Change::Unchanged, events_for(j, h0)));
                        lemma_events_for_push(j, h0, (id, Change::Modified));
                        if j == id {
                            lemma_fold_merge_step(
                                Change::Unchanged,
                                events_for(j, h0),
                                Change::Modified,
                            );
                            assert(log_tag(self.log(), j) == merge(
                                log_tag(st0.log(), j),
                                Change::Modified,
                            ));
                        } else {
                            assert(log_tag(self.log(), j) == log_tag(st0.log(), j));
                        }
                    }
                }
            }
            i += 1;
            proof {
                assert(ids@.take(i as int) =~= ids@.take((i - 1) as int).push(id));
            }
        }
        proof {
            assert(ids@.take(n as int) =~= ids@);
        }
    }
}


/// The net-effect law: under the tracker's invariant, the tag recorded for
/// any id equals the left fold of the merge rule over the ordered raw events
/// recorded for that id since the last reset, and that fold crosses only
/// legal transitions; the operations refuse an illegal pair up front rather
/// than absorbing it.
pub proof fn lemma_tag_is_event_fold<C>(s: TrackedStorage<C>, id: u32)
    requires
        s.wf(),
    ensures
        fold_ok(Change::Unchanged, events_for(id, s.history())),
        s.tag_of(id) == fold_merge(Change::Unchanged, events_for(id, s.history())),
{
}

/// After a reset, every event query stays empty until a new structural or
/// detected-modification event occurs: a storage whose tags are all
/// `Unchanged` denotes an empty event sequence.
pub proof fn lemma_no_pending_tags_no_events<C>(s: TrackedStorage<C>)
    requires
        forall|j: u32| s.tag_of(j) == Change::Unchanged,
        s.log().len() <= MAX_SLOT_ID,
    ensures
        events_of(s.log()) == Seq::<(u32, Change)>::empty(),
{
    assert forall|i: int| 0 <= i < s.log().len() implies s.log()[i] == Change::Unchanged by {
        assert(s.tag_of(i as u32) == Change::Unchanged);
    }
    lemma_events_of_unchanged(s.log());
}

/// Restartability: the event sequence is a function of the change log alone,
/// so two readers built without an intervening mutation walk identical
/// sequences.
pub proof fn lemma_events_restartable(e1: ChangeEvents, e2: ChangeEvents, log: Seq<Change>)
    requires
        e1.sequence() == events_of(log),
        e2.sequence() == events_of(log),
    ensures
        e1.sequence() == e2.sequence(),
{
}


/// A storage whose single pending tag is `Inserted` at `id` (as after one
/// insert at the start of an epoch) denotes exactly the one event
/// `(id, Inserted)`.
pub proof fn lemma_single_insert_events<C>(s: TrackedStorage<C>, id: u32)
    requires
        s.wf(),
        s.tag_of(id) == Change::Inserted,
        forall|j: u32| j != id ==> s.tag_of(j) == Change::Unchanged,
    ensures
        events_of(s.log()) == seq![(id, Change::Inserted)],
{
    assert((id as int) < s.log().len());
    assert forall|j: int| 0 <= j < s.log().len() && j != id implies s.log()[j]
        == Change::Unchanged by {
        assert(s.tag_of(j as u32) == Change::Unchanged);
    }
    lemma_events_of_single(s.log(), id);
}


/// The invariant keeps the change log within the id bound.
pub proof fn lemma_wf_log_len<C>(s: TrackedStorage<C>)
    requires
        s.wf(),
    ensures
        s.log().len() <= MAX_SLOT_ID,
{
}

} // verus!
