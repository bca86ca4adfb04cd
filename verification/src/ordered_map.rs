//! The insertion-ordered map that holds the aggregate, and what is taken on
//! trust about it. The map is keyed by the 36 bytes of an identity, so that
//! keys are compared and hashed as `std` does for arrays of bytes.

use crate::domain::AggregatedPlayerData;
use indexmap::IndexMap;
use vstd::prelude::*;

verus! {

/// `indexmap::IndexMap`, opaque to the verifier.
#[verifier::external_type_specification]
#[verifier::external_body]
#[verifier::reject_recursive_types(K)]
#[verifier::reject_recursive_types(V)]
#[verifier::reject_recursive_types(S)]
pub struct ExIndexMap<K, V, S>(IndexMap<K, V, S>);

/// The map from identity bytes to aggregates.
pub type PlayerMap = IndexMap<[u8; 36], AggregatedPlayerData>;

/// One entry of the map: the identity's bytes and the aggregate.
pub type Entry = ([u8; 36], AggregatedPlayerData);

/// The entries of a map, in the order in which the map keeps them: that of
/// their insertion.
pub uninterp spec fn map_entries(map: PlayerMap) -> Seq<Entry>;

/// Whether some entry has the key.
pub open spec fn has_key(entries: Seq<Entry>, key: [u8; 36]) -> bool {
    exists|i: int| 0 <= i < entries.len() && (#[trigger] entries[i]).0 == key
}

/// The position of an entry with the key, where there is one.
pub open spec fn position_of(entries: Seq<Entry>, key: [u8; 36]) -> int {
    choose|i: int| 0 <= i < entries.len() && (#[trigger] entries[i]).0 == key
}

/// `IndexMap::with_capacity`. Taken on trust: the new map has no entries.
/// The outside function panics where the size of the storage for `n` entries
/// overflows; an entry takes fewer than 128 bytes in each of the map's two
/// allocations, so that no `n` up to `usize::MAX / 256` is such.
#[verifier::external_body]
pub(crate) fn with_capacity(n: usize) -> (map: PlayerMap)
    requires
        n <= usize::MAX / 256,
    ensures
        map_entries(map) == Seq::<Entry>::empty(),
{
    IndexMap::with_capacity(n)
}

/// `IndexMap::len`. Taken on trust: the number of entries.
#[verifier::external_body]
pub(crate) fn len(map: &PlayerMap) -> (n: usize)
    ensures
        n == map_entries(*map).len(),
{
    map.len()
}

/// `IndexMap::get_index`. Taken on trust: the key and the value of the entry
/// at the position, `None` where the position is past the last entry.
#[verifier::external_body]
pub(crate) fn get_index(map: &PlayerMap, index: usize) -> (r: Option<
    (&[u8; 36], &AggregatedPlayerData),
>)
    ensures
        index < map_entries(*map).len() ==> r == Some(
            (&map_entries(*map)[index as int].0, &map_entries(*map)[index as int].1),
        ),
        index >= map_entries(*map).len() ==> r is None,
{
    map.get_index(index)
}

/// `IndexMap::entry` followed by `Entry::or_insert`: the slot of the value
/// that the map holds for the key. Taken on trust: where an entry has the
/// key, the slot holds its value and the entry keeps its position; where none
/// has, an entry of the key and `fresh` is added behind the others and the
/// slot holds `fresh`. What is in the slot when the borrow ends is the
/// entry's value in the map; no other entry changes.
#[verifier::external_body]
pub(crate) fn entry_or_insert<'a>(
    map: &'a mut PlayerMap,
    key: [u8; 36],
    fresh: AggregatedPlayerData,
) -> (slot: &'a mut AggregatedPlayerData)
    ensures
        has_key(map_entries(*old(map)), key) ==> {
            let at = position_of(map_entries(*old(map)), key);
            &&& *slot == map_entries(*old(map))[at].1
            &&& map_entries(*final(map)) == map_entries(*old(map)).update(at, (key, *final(slot)))
        },
        !has_key(map_entries(*old(map)), key) ==> {
            &&& *slot == fresh
            &&& map_entries(*final(map)) == map_entries(*old(map)).push((key, *final(slot)))
        },
{
    map.entry(key).or_insert(fresh)
}

} // verus!
