//! The dirty set: a sparse set of slot ids with fast ascending iteration,
//! backed by `hibitset::BitSet`. The set's contents are modelled by the
//! uninterpreted `bitset_elems`, and every method the tracking layer calls is
//! wrapped with a contract stated over that model.

use hibitset::BitSetLike;
use vstd::prelude::*;

verus! {

/// Ids must stay below this bound. `hibitset::BitSet` holds at most
/// `usize::BITS ** 4` indices and panics when one beyond that is added; this
/// bound stays within the limit on both 32- and 64-bit targets.
pub const MAX_SLOT_ID: u32 = 1048576;

#[verifier::external_type_specification]
#[verifier::external_body]
pub struct ExBitSet(hibitset::BitSet);

/// The set of indices currently held by a `hibitset::BitSet`.
pub uninterp spec fn bitset_elems(s: hibitset::BitSet) -> Set<u32>;

/// Relies on `hibitset::BitSet::new`, which builds a set with no index in it.
#[verifier::external_body]
pub fn bitset_new() -> (r: hibitset::BitSet)
    ensures
        bitset_elems(r) == Set::<u32>::empty(),
{
    hibitset::BitSet::new()
}

/// Relies on `hibitset::BitSet::add`: sets the bit for `id` and reports
/// whether it was already set. It panics only for an id above the structure's
/// fixed capacity, which `MAX_SLOT_ID` stays below.
#[verifier::external_body]
pub fn bitset_add(s: &mut hibitset::BitSet, id: u32) -> (r: bool)
    requires
        id < MAX_SLOT_ID,
    ensures
        bitset_elems(*final(s)) == bitset_elems(*old(s)).insert(id),
        r == bitset_elems(*old(s)).contains(id),
{
    s.add(id)
}

/// Relies on `hibitset::BitSet::remove`: clears the bit for `id` and reports
/// whether it was set. It never panics: an id beyond the allocated layers is
/// reported absent.
#[verifier::external_body]
pub fn bitset_remove(s: &mut hibitset::BitSet, id: u32) -> (r: bool)
    ensures
        bitset_elems(*final(s)) == bitset_elems(*old(s)).remove(id),
        r == bitset_elems(*old(s)).contains(id),
{
    s.remove(id)
}

/// Relies on `hibitset::BitSet::contains`, a read of the bit for `id`.
#[verifier::external_body]
pub fn bitset_contains(s: &hibitset::BitSet, id: u32) -> (r: bool)
    ensures
        r == bitset_elems(*s).contains(id),
{
    s.contains(id)
}

/// Relies on `hibitset::BitSet::clear`, which wipes every layer of the set.
#[verifier::external_body]
pub fn bitset_clear(s: &mut hibitset::BitSet)
    ensures
        bitset_elems(*final(s)) == Set::<u32>::empty(),
{
    s.clear()
}

/// Relies on the `hibitset::BitSetLike` iterator, which visits each set index
/// exactly once, lowest first: at every layer it consumes the lowest set bit
/// (`trailing_zeros`) before any higher one.
#[verifier::external_body]
pub fn bitset_to_vec(s: &hibitset::BitSet) -> (r: Vec<u32>)
    ensures
        forall|id: u32| #[trigger] r@.contains(id) <==> bitset_elems(*s).contains(id),
        forall|i: int, j: int| 0 <= i < j < r@.len() ==> r@[i] < r@[j],
{
    s.iter().collect()
}

} // verus!
