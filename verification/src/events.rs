//! The event view of the change log: a finite, restartable sequence of
//! `(id, tag)` pairs, one per log index whose tag is pending, in ascending id
//! order. Reading the view never consumes or mutates the log.

use crate::change::Change;
use vstd::prelude::*;

verus! {

/// The ordered event sequence that the change log `log` denotes: one
/// `(id, tag)` pair per index whose tag is not `Unchanged`, ascending by id.
/// The sequence is a function of the log alone, which is what makes reading
/// it restartable.
pub open spec fn events_of(log: Seq<Change>) -> Seq<(u32, Change)>
    decreases log.len(),
{
    if log.len() == 0 {
        Seq::empty()
    } else {
        let pre = events_of(log.drop_last());
        if log.last() == Change::Unchanged {
            pre
        } else {
            pre.push((((log.len() - 1) as u32), log.last()))
        }
    }
}

/// A log with no pending tag yields no events.
pub proof fn lemma_events_of_unchanged(log: Seq<Change>)
    requires
        forall|i: int| 0 <= i < log.len() ==> log[i] == Change::Unchanged,
    ensures
        events_of(log) == Seq::<(u32, Change)>::empty(),
    decreases log.len(),
{
    if log.len() > 0 {
        lemma_events_of_unchanged(log.drop_last());
    }
}

/// A log whose single pending tag sits at `id` yields exactly the one event
/// `(id, tag)`.
pub proof fn lemma_events_of_single(log: Seq<Change>, id: u32)
    requires
        (id as int) < log.len(),
        log[id as int] != Change::Unchanged,
        forall|j: int| 0 <= j < log.len() && j != id ==> log[j] == Change::Unchanged,
    ensures
        events_of(log) == seq![(id, log[id as int])],
    decreases log.len(),
{
    if (id as int) == log.len() - 1 {
        lemma_events_of_unchanged(log.drop_last());
        assert(events_of(log) =~= seq![(id, log[id as int])]);
    } else {
        lemma_events_of_single(log.drop_last(), id);
    }
}

/// A pull-based reader over the event sequence of a change log, taken at the
/// moment the reader was built. Reading is restartable: building two readers
/// from the same log hands out the same sequence.
pub struct ChangeEvents {
    events: Vec<(u32, Change)>,
    pos: usize,
}

impl ChangeEvents {
    /// The full event sequence this reader walks.
    pub closed spec fn sequence(self) -> Seq<(u32, Change)> {
        self.events@
    }

    /// How many events have been yielded so far.
    pub closed spec fn position(self) -> int {
        self.pos as int
    }

    pub(crate) fn new(events: Vec<(u32, Change)>) -> (r: Self)
        ensures
            r.sequence() == events@,
            r.position() == 0,
    {
        ChangeEvents { events, pos: 0 }
    }

    /// Yields the next event, or `None` once the sequence is exhausted.
    pub fn next(&mut self) -> (r: Option<(u32, Change)>)
        ensures
            final(self).sequence() == old(self).sequence(),
            old(self).position() < old(self).sequence().len() ==> {
                &&& r == Some(old(self).sequence()[old(self).position()])
                &&& final(self).position() == old(self).position() + 1
            },
            old(self).position() >= old(self).sequence().len() ==> {
                &&& r is None
                &&& final(self).position() == old(self).position()
            },
    {
        if self.pos < self.events.len() {
            let ev = self.events[self.pos];
            self.pos = self.pos + 1;
            Some(ev)
        } else {
            None
        }
    }
}

} // verus!
