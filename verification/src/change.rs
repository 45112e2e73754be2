//! The change tag algebra: a four-state tag and the merge rule that folds an
//! incoming event into the tag already recorded for a slot.

use vstd::prelude::*;

verus! {

/// Net effect of the events applied to one slot id within the current epoch.
#[derive(Copy, Clone, Debug, PartialEq, Eq, Structural, PartialOrd)]
pub enum Change {
    Unchanged,
    Inserted,
    Modified,
    Removed,
}

/// Whether folding `incoming` into the prior tag `prior` is a legal
/// transition. The illegal pairs (re-inserting a live slot, modifying or
/// re-removing a removed slot) signal a structural event that the caller
/// issued without the required intervening reset or removal.
pub open spec fn merge_ok(prior: Change, incoming: Change) -> bool {
    match (prior, incoming) {
        (Change::Unchanged, _) => true,
        (_, Change::Unchanged) => true,
        (Change::Inserted, Change::Modified) => true,
        (Change::Inserted, Change::Removed) => true,
        (Change::Modified, Change::Modified) => true,
        (Change::Modified, Change::Removed) => true,
        (Change::Removed, Change::Inserted) => true,
        _ => false,
    }
}

/// The merge table. An insert followed by a remove cancels to `Unchanged`: for an
/// observer polling once per epoch the slot never existed. A remove followed
/// by an insert reads as `Modified`: the id's value changed. A modification
/// never demotes an `Inserted` tag.
pub open spec fn merge(prior: Change, incoming: Change) -> Change
    recommends
        merge_ok(prior, incoming),
{
    match (prior, incoming) {
        (Change::Unchanged, c) => c,
        (c, Change::Unchanged) => c,
        (Change::Inserted, Change::Modified) => Change::Inserted,
        (Change::Inserted, Change::Removed) => Change::Unchanged,
        (Change::Modified, Change::Modified) => Change::Modified,
        (Change::Modified, Change::Removed) => Change::Removed,
        (Change::Removed, Change::Inserted) => Change::Modified,
        (c, _) => c,
    }
}

/// Whether the left fold of `merge` over `evs`, starting from `init`, stays on
/// legal transitions throughout.
pub open spec fn fold_ok(init: Change, evs: Seq<Change>) -> bool
    decreases evs.len(),
{
    evs.len() == 0 || {
        &&& fold_ok(init, evs.drop_last())
        &&& merge_ok(fold_merge(init, evs.drop_last()), evs.last())
    }
}

/// The left fold of `merge` over `evs`, starting from `init`.
pub open spec fn fold_merge(init: Change, evs: Seq<Change>) -> Change
    recommends
        fold_ok(init, evs),
    decreases evs.len(),
{
    if evs.len() == 0 {
        init
    } else {
        merge(fold_merge(init, evs.drop_last()), evs.last())
    }
}

impl Change {
    /// Folds `incoming` into the tag, per the merge table. An illegal pair is
    /// a contract violation by the caller and is excluded up front: this
    /// operation never fabricates a repaired tag.
    pub fn add(&mut self, incoming: Change)
        requires
            merge_ok(*old(self), incoming),
        ensures
            *final(self) == merge(*old(self), incoming),
    {
        let merged = match (*self, incoming) {
            (Change::Unchanged, c) => c,
            (c, Change::Unchanged) => c,
            (Change::Inserted, Change::Modified) => Change::Inserted,
            (Change::Inserted, Change::Removed) => Change::Unchanged,
            (Change::Modified, Change::Modified) => Change::Modified,
            (Change::Modified, Change::Removed) => Change::Removed,
            (Change::Removed, Change::Inserted) => Change::Modified,
            _ => vstd::pervasive::unreached(),
        };
        *self = merged;
    }
}

/// Appending one event to a fold advances it by exactly one merge step.
pub proof fn lemma_fold_merge_step(init: Change, evs: Seq<Change>, ev: Change)
    ensures
        fold_merge(init, evs.push(ev)) == merge(fold_merge(init, evs), ev),
        fold_ok(init, evs.push(ev)) <==> fold_ok(init, evs) && merge_ok(
            fold_merge(init, evs),
            ev,
        ),
{
    assert(evs.push(ev).drop_last() =~= evs);
}

} // verus!
