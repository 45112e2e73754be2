use hibitset::BitSetLike;
use tracked_storage::{Change, Storage, TrackedStorage, MAX_SLOT_ID};

#[derive(Clone, PartialEq, Debug)]
struct Comp(u8);

fn events(s: &Storage<Comp>) -> Vec<(u32, Change)> {
    let mut out = Vec::new();
    let mut it = s.change_events_tracked();
    while let Some(ev) = it.next() {
        out.push(ev);
    }
    out
}

fn dirty_ids(s: &Storage<Comp>) -> Vec<u32> {
    s.changed_tracked().iter().collect()
}

#[test]
fn insert() {
    let mut s: Storage<Comp> = Storage::new();
    assert_eq!(events(&s), vec![]);

    s.insert(0, Comp(1));
    assert_eq!(events(&s), vec![(0, Change::Inserted)]);
}

#[test]
fn modified() {
    let mut s: Storage<Comp> = Storage::new();
    assert_eq!(events(&s), vec![]);

    s.insert(0, Comp(1));
    assert_eq!(events(&s), vec![(0, Change::Inserted)]);

    s.insert(0, Comp(2));
    assert_eq!(events(&s), vec![(0, Change::Inserted)]);

    s.maintain_tracked();
    assert_eq!(events(&s), vec![(0, Change::Inserted)]);

    s.reset_tracked();
    assert_eq!(events(&s), vec![]);

    s.insert(0, Comp(4));
    s.maintain_tracked();
    assert_eq!(events(&s), vec![(0, Change::Modified)]);
}

#[test]
fn removed_entity() {
    let mut s: Storage<Comp> = Storage::new();

    s.insert(0, Comp(0));
    s.reset_tracked();
    assert_eq!(events(&s), vec![]);

    let v = s.remove(0);
    assert_eq!(v, Some(Comp(0)));
    assert_eq!(events(&s), vec![(0, Change::Removed)]);
    // the dirty set no longer holds the id, though the log still records the
    // Removed tag until the next reset
    assert!(!s.changed_tracked().contains(0));
}

#[test]
fn removed_entity_atomic() {
    // a deletion requested and carried out within one epoch: no event is
    // visible before the removal runs, the Removed event right after
    let mut s: Storage<Comp> = Storage::new();

    s.insert(0, Comp(0));
    s.reset_tracked();
    assert_eq!(events(&s), vec![]);

    let _ = s.remove(0);
    assert_eq!(events(&s), vec![(0, Change::Removed)]);
}

#[test]
fn removed_component() {
    let mut s: Storage<Comp> = Storage::new();

    s.insert(0, Comp(0));
    s.reset_tracked();
    assert_eq!(events(&s), vec![]);

    let _ = s.remove(0);
    assert_eq!(events(&s), vec![(0, Change::Removed)]);
}

#[test]
fn remove_insert_mix() {
    let mut s: Storage<Comp> = Storage::new();

    s.insert(0, Comp(0));
    s.reset_tracked();
    assert_eq!(events(&s), vec![]);

    let _ = s.remove(0);
    assert_eq!(events(&s), vec![(0, Change::Removed)]);

    s.insert(0, Comp(1));
    s.maintain_tracked();
    assert_eq!(events(&s), vec![(0, Change::Modified)]);

    let _ = s.remove(0);
    assert_eq!(events(&s), vec![(0, Change::Removed)]);

    s.reset_tracked();
    s.insert(1, Comp(5));
    assert_eq!(events(&s), vec![(1, Change::Inserted)]);

    let _ = s.remove(1);
    assert_eq!(events(&s), vec![]);
}

#[test]
fn join_changed() {
    let mut s: Storage<Comp> = Storage::new();

    s.insert(0, Comp(0));
    s.insert(1, Comp(1));
    s.maintain_tracked();
    assert_eq!(dirty_ids(&s), vec![0, 1]);

    s.insert(0, Comp(10));
    s.insert(2, Comp(2));
    s.maintain_tracked();
    // the dirty set accumulates until the next reset: the ids inserted in the
    // earlier write stay marked alongside the modified and new ones
    assert_eq!(dirty_ids(&s), vec![0, 1, 2]);
}

#[test]
fn reset_clears_everything() {
    let mut s: Storage<Comp> = Storage::new();

    s.insert(0, Comp(1));
    s.insert(5, Comp(2));
    s.insert(0, Comp(9));
    s.maintain_tracked();

    s.reset_tracked();
    assert_eq!(events(&s), vec![]);
    assert_eq!(dirty_ids(&s), vec![]);

    // and it stays that way until a new event occurs
    assert_eq!(events(&s), vec![]);
    s.insert(3, Comp(7));
    assert_eq!(events(&s), vec![(3, Change::Inserted)]);
}

#[test]
fn events_restartable() {
    let mut s: Storage<Comp> = Storage::new();
    s.insert(2, Comp(3));
    s.insert(7, Comp(4));

    let mut a = s.change_events_tracked();
    let mut b = s.change_events_tracked();
    let mut va = Vec::new();
    while let Some(ev) = a.next() {
        va.push(ev);
    }
    let mut vb = Vec::new();
    while let Some(ev) = b.next() {
        vb.push(ev);
    }
    assert_eq!(va, vb);
    assert_eq!(va, vec![(2, Change::Inserted), (7, Change::Inserted)]);

    // a reader past its end keeps yielding nothing
    assert_eq!(a.next(), None);
    assert_eq!(a.next(), None);
}

#[test]
fn tag_follows_merge_fold() {
    let mut s: Storage<Comp> = Storage::new();

    // raw events applied to id 0: Inserted then Removed
    s.insert(0, Comp(1));
    let _ = s.remove(0);
    let mut tag = Change::Unchanged;
    tag.add(Change::Inserted);
    tag.add(Change::Removed);
    assert_eq!(tag, Change::Unchanged);
    assert_eq!(events(&s), vec![]);

    // raw events: Inserted, Removed, Inserted
    s.insert(0, Comp(2));
    let _ = s.remove(0);
    s.insert(0, Comp(3));
    let mut tag = Change::Unchanged;
    for ev in [Change::Inserted, Change::Removed, Change::Inserted] {
        tag.add(ev);
    }
    assert_eq!(tag, Change::Inserted);
    assert_eq!(events(&s), vec![(0, Change::Inserted)]);
}

#[test]
fn merge_table() {
    let cases = [
        (Change::Unchanged, Change::Unchanged, Change::Unchanged),
        (Change::Unchanged, Change::Inserted, Change::Inserted),
        (Change::Unchanged, Change::Modified, Change::Modified),
        (Change::Unchanged, Change::Removed, Change::Removed),
        (Change::Inserted, Change::Unchanged, Change::Inserted),
        (Change::Inserted, Change::Modified, Change::Inserted),
        (Change::Inserted, Change::Removed, Change::Unchanged),
        (Change::Modified, Change::Unchanged, Change::Modified),
        (Change::Modified, Change::Modified, Change::Modified),
        (Change::Modified, Change::Removed, Change::Removed),
        (Change::Removed, Change::Unchanged, Change::Removed),
        (Change::Removed, Change::Inserted, Change::Modified),
    ];
    for (prior, incoming, expected) in cases {
        let mut tag = prior;
        tag.add(incoming);
        assert_eq!(tag, expected);
    }
}

#[test]
fn sparse_ids_ascending_events() {
    let mut s: Storage<Comp> = Storage::new();
    s.insert(1000, Comp(1));
    s.insert(3, Comp(2));
    s.insert(64, Comp(3));
    assert_eq!(
        events(&s),
        vec![(3, Change::Inserted), (64, Change::Inserted), (1000, Change::Inserted)]
    );
    assert_eq!(*s.get(64), Comp(3));
    assert_eq!(dirty_ids(&s), vec![3, 64, 1000]);
}

#[test]
fn inner_get_and_get_mut() {
    let mut s: TrackedStorage<Comp> = TrackedStorage::new();
    s.insert(4, Comp(9));
    assert_eq!(*s.get(4), Comp(9));
    *s.get_mut(4) = Comp(11);
    assert_eq!(*s.get(4), Comp(11));
    assert!(s.contains(4));
    assert!(!s.contains(5));

    // the in-place write through the reference stays invisible until the
    // maintenance pass compares against the snapshot
    let mut live = hibitset::BitSet::new();
    live.add(4);
    s.reset_tracked();
    *s.get_mut(4) = Comp(12);
    s.maintain_tracked(&live);
    let mut it = s.change_events_tracked();
    assert_eq!(it.next(), Some((4, Change::Modified)));
    assert_eq!(it.next(), None);
}

#[test]
fn clean_keeps_only_named_ids() {
    let mut s: TrackedStorage<Comp> = TrackedStorage::new();
    s.insert(0, Comp(1));
    s.insert(1, Comp(2));
    s.reset_tracked();

    let mut keep = hibitset::BitSet::new();
    keep.add(0);
    s.clean(&keep);
    assert!(s.contains(0));
    assert!(!s.contains(1));
    assert_eq!(*s.get(0), Comp(1));
    // the change log and the dirty set are untouched by clean
    let mut it = s.change_events_tracked();
    assert_eq!(it.next(), None);
    let dirty: Vec<u32> = s.changed_tracked().iter().collect();
    assert_eq!(dirty, vec![]);
}

#[test]
fn maintain_only_flags_changed_values() {
    let mut s: Storage<Comp> = Storage::new();
    s.insert(0, Comp(1));
    s.insert(1, Comp(2));
    s.reset_tracked();

    s.insert(1, Comp(5));
    s.maintain_tracked();
    assert_eq!(events(&s), vec![(1, Change::Modified)]);
    assert!(!s.changed_tracked().contains(0));
    assert!(s.changed_tracked().contains(1));
}

#[test]
fn remove_missing_id_is_none() {
    let mut s: Storage<Comp> = Storage::new();
    s.insert(0, Comp(1));
    assert_eq!(s.remove(9), None);
    // nothing was recorded for the untouched id
    assert_eq!(events(&s), vec![(0, Change::Inserted)]);
}

#[test]
fn largest_slot_id() {
    let mut s: Storage<Comp> = Storage::new();
    let id = MAX_SLOT_ID - 1;
    s.insert(id, Comp(1));
    assert!(s.contains(id));
    assert_eq!(events(&s), vec![(id, Change::Inserted)]);
}
