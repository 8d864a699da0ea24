//! The hash maps, bitmap and sort that the mailbox logic borrows from other
//! crates and from `std`, each behind a contract that is stated here and
//! taken on trust: nothing in this module is proved.

use ahash::AHashMap;
use roaring::RoaringBitmap;
use vstd::prelude::*;

use crate::mailbox::ImapId;

verus! {

/// `ahash::AHashMap`. The verifier sees nothing inside a map: what one holds
/// is named by [`imap_entries`] and [`id_entries`].
#[verifier::external_type_specification]
#[verifier::external_body]
#[verifier::reject_recursive_types(K)]
#[verifier::reject_recursive_types(V)]
#[verifier::reject_recursive_types(S)]
pub struct ExAHashMap<K, V, S>(AHashMap<K, V, S>);

/// `ahash::RandomState`, the hasher of the maps. Each process seeds it anew,
/// so nothing is said of it.
#[verifier::external_type_specification]
#[verifier::external_body]
pub struct ExRandomState(ahash::RandomState);

/// `roaring::RoaringBitmap`. What a bitmap holds is named by
/// [`bitmap_values`].
#[verifier::external_type_specification]
#[verifier::external_body]
pub struct ExRoaringBitmap(RoaringBitmap);

/// The entries of a map from message id to IMAP id.
pub uninterp spec fn imap_entries(map: AHashMap<u32, ImapId>) -> Map<u32, ImapId>;

/// The entries of a map from uid to message id.
pub uninterp spec fn id_entries(map: AHashMap<u32, u32>) -> Map<u32, u32>;

/// The integers held by a bitmap.
pub uninterp spec fn bitmap_values(bitmap: RoaringBitmap) -> Set<u32>;

/// `AHashMap::new`: a map without entries.
#[verifier::external_body]
pub(crate) fn imap_map_new() -> (map: AHashMap<u32, ImapId>)
    ensures
        imap_entries(map) == (Map::<u32, ImapId>::empty()),
{
    AHashMap::new()
}

/// `AHashMap::with_capacity`: a map without entries; the capacity is only a
/// hint for the allocation.
#[verifier::external_body]
pub(crate) fn imap_map_with_capacity(capacity: usize) -> (map: AHashMap<u32, ImapId>)
    ensures
        imap_entries(map) == (Map::<u32, ImapId>::empty()),
{
    AHashMap::with_capacity(capacity)
}

/// `AHashMap::insert`: the key maps to the new value afterwards, every other
/// entry stays, and the value that the key had before is handed back.
#[verifier::external_body]
pub(crate) fn imap_map_insert(map: &mut AHashMap<u32, ImapId>, key: u32, value: ImapId) -> (previous:
    Option<ImapId>)
    ensures
        imap_entries(*final(map)) == imap_entries(*old(map)).insert(key, value),
        previous == (if imap_entries(*old(map)).contains_key(key) {
            Some(imap_entries(*old(map))[key])
        } else {
            None
        }),
{
    map.insert(key, value)
}

/// `AHashMap::get`: the value of the key's entry, if it has one.
#[verifier::external_body]
pub(crate) fn imap_map_get(map: &AHashMap<u32, ImapId>, key: u32) -> (value: Option<ImapId>)
    ensures
        value == (if imap_entries(*map).contains_key(key) {
            Some(imap_entries(*map)[key])
        } else {
            None
        }),
{
    map.get(&key).copied()
}

/// `HashMap::len`, reached through `Deref`: the number of entries.
#[verifier::external_body]
pub(crate) fn imap_map_len(map: &AHashMap<u32, ImapId>) -> (len: usize)
    ensures
        len == imap_entries(*map).len(),
{
    map.len()
}

/// `HashMap::iter`, reached through `Deref`: every entry exactly once. The
/// order depends on the hasher's seed, so nothing is said of it.
#[verifier::external_body]
pub(crate) fn imap_map_to_vec(map: &AHashMap<u32, ImapId>) -> (entries: Vec<(u32, ImapId)>)
    ensures
        forall|i: int, j: int|
            0 <= i < j < entries@.len() ==> (#[trigger] entries@[i]).0 != (#[trigger] entries@[j]).0,
        forall|i: int|
            0 <= i < entries@.len() ==> imap_entries(*map).contains_pair(
                (#[trigger] entries@[i]).0,
                entries@[i].1,
            ),
        forall|key: u32| #[trigger]
            imap_entries(*map).contains_key(key) ==> exists|i: int|
                0 <= i < entries@.len() && (#[trigger] entries@[i]).0 == key,
{
    map.iter().map(|(key, value)| (*key, *value)).collect()
}

/// `Clone` of `AHashMap`: a map with the same entries.
#[verifier::external_body]
pub(crate) fn imap_map_clone(map: &AHashMap<u32, ImapId>) -> (copy: AHashMap<u32, ImapId>)
    ensures
        imap_entries(copy) == imap_entries(*map),
{
    map.clone()
}

/// `Clone` of `AHashMap`: a map with the same entries.
#[verifier::external_body]
pub(crate) fn id_map_clone(map: &AHashMap<u32, u32>) -> (copy: AHashMap<u32, u32>)
    ensures
        id_entries(copy) == id_entries(*map),
{
    map.clone()
}

/// `AHashMap::with_capacity`: a map without entries; the capacity is only a
/// hint for the allocation.
#[verifier::external_body]
pub(crate) fn id_map_with_capacity(capacity: usize) -> (map: AHashMap<u32, u32>)
    ensures
        id_entries(map) == (Map::<u32, u32>::empty()),
{
    AHashMap::with_capacity(capacity)
}

/// `AHashMap::insert`: the key maps to the new value afterwards, every other
/// entry stays, and the value that the key had before is handed back.
#[verifier::external_body]
pub(crate) fn id_map_insert(map: &mut AHashMap<u32, u32>, key: u32, value: u32) -> (previous: Option<u32>)
    ensures
        id_entries(*final(map)) == id_entries(*old(map)).insert(key, value),
        previous == (if id_entries(*old(map)).contains_key(key) {
            Some(id_entries(*old(map))[key])
        } else {
            None
        }),
{
    map.insert(key, value)
}

/// `HashMap::contains_key`, reached through `Deref`: whether the key has an
/// entry.
#[verifier::external_body]
pub(crate) fn id_map_contains_key(map: &AHashMap<u32, u32>, key: u32) -> (found: bool)
    ensures
        found == id_entries(*map).contains_key(key),
{
    map.contains_key(&key)
}

/// `AHashMap::get`: the value of the key's entry, if it has one.
#[verifier::external_body]
pub(crate) fn id_map_get(map: &AHashMap<u32, u32>, key: u32) -> (value: Option<u32>)
    ensures
        value == (if id_entries(*map).contains_key(key) {
            Some(id_entries(*map)[key])
        } else {
            None
        }),
{
    map.get(&key).copied()
}

/// `AHashMap::remove`: the key has no entry afterwards, every other entry
/// stays, and the value that the key had is handed back.
#[verifier::external_body]
pub(crate) fn id_map_remove(map: &mut AHashMap<u32, u32>, key: u32) -> (previous: Option<u32>)
    ensures
        id_entries(*final(map)) == id_entries(*old(map)).remove(key),
        previous == (if id_entries(*old(map)).contains_key(key) {
            Some(id_entries(*old(map))[key])
        } else {
            None
        }),
{
    map.remove(&key)
}

/// `RoaringBitmap::new`: a bitmap that holds no integer.
#[verifier::external_body]
pub(crate) fn bitmap_new() -> (bitmap: RoaringBitmap)
    ensures
        bitmap_values(bitmap) == (Set::<u32>::empty()),
{
    RoaringBitmap::new()
}

/// `RoaringBitmap::insert`: the bitmap holds the value afterwards and
/// whatever it held before; the result says whether the value was absent.
#[verifier::external_body]
pub(crate) fn bitmap_insert(bitmap: &mut RoaringBitmap, value: u32) -> (added: bool)
    ensures
        bitmap_values(*final(bitmap)) == bitmap_values(*old(bitmap)).insert(value),
        added == !bitmap_values(*old(bitmap)).contains(value),
{
    bitmap.insert(value)
}

/// `RoaringBitmap::is_empty`: whether the bitmap holds no integer.
#[verifier::external_body]
pub(crate) fn bitmap_is_empty(bitmap: &RoaringBitmap) -> (empty: bool)
    ensures
        empty == (bitmap_values(*bitmap) == (Set::<u32>::empty())),
{
    bitmap.is_empty()
}

/// `<[u32]>::sort_unstable`: the same numbers, each as often as before, in
/// ascending order.
#[verifier::external_body]
pub(crate) fn sort_numbers(numbers: &mut Vec<u32>)
    ensures
        final(numbers)@.to_multiset() == old(numbers)@.to_multiset(),
        forall|i: int, j: int|
            0 <= i < j < final(numbers)@.len() ==> final(numbers)@[i] <= final(numbers)@[j],
{
    numbers.sort_unstable();
}

} // verus!
