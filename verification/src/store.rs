use vstd::prelude::*;

use crate::entry::AddressEntry;
use crate::entry::valid_entries;

verus! {

/// The backing container is multimap's `MultiMap`, a hash map from a key to
/// the ordered vector of values inserted under it. Keys are network addresses
/// rendered as integers.
#[verifier::external_type_specification]
#[verifier::external_body]
#[verifier::reject_recursive_types(K)]
#[verifier::reject_recursive_types(V)]
#[verifier::reject_recursive_types(S)]
pub struct ExMultiMap<K, V, S>(multimap::MultiMap<K, V, S>);

/// What a `MultiMap` holds: for each key present, the ordered list of the
/// values stored under it.
pub uninterp spec fn mm_store(m: multimap::MultiMap<u128, AddressEntry>) -> Map<
    u128,
    Seq<AddressEntry>,
>;

/// The store that holds nothing.
pub open spec fn empty_store() -> Map<u128, Seq<AddressEntry>> {
    Map::empty()
}

/// The list stored under `key`, or the empty list when the key is absent.
pub open spec fn key_entries(store: Map<u128, Seq<AddressEntry>>, key: u128) -> Seq<AddressEntry> {
    if store.dom().contains(key) {
        store[key]
    } else {
        Seq::empty()
    }
}

/// The store after the global sweep at `now`: a key survives exactly when at
/// least one of its entries is still valid, and a surviving key keeps its
/// list untouched, stale entries included; only wholly-stale keys are
/// removed. This is deliberately coarser than the key-scoped cleanup, which
/// prunes stale entries inside a surviving key.
pub open spec fn clean_all_keys(store: Map<u128, Seq<AddressEntry>>, now: u64, ttl: u64) -> Map<
    u128,
    Seq<AddressEntry>,
> {
    Map::new(
        |k: u128| store.dom().contains(k) && valid_entries(store[k], now, ttl).len() > 0,
        |k: u128| store[k],
    )
}

/// Relies on multimap's `MultiMap::with_capacity`: it returns an empty map.
#[verifier::external_body]
pub(crate) fn mm_with_capacity(capacity: usize) -> (m: multimap::MultiMap<u128, AddressEntry>)
    ensures
        mm_store(m) == empty_store(),
{
    multimap::MultiMap::with_capacity(capacity)
}

/// Relies on multimap's `MultiMap::len`: the number of distinct keys held.
#[verifier::external_body]
pub(crate) fn mm_len(m: &multimap::MultiMap<u128, AddressEntry>) -> (n: usize)
    ensures
        n == mm_store(*m).dom().len(),
{
    m.len()
}

/// Relies on multimap's `MultiMap::get_vec`, a lookup in the underlying hash
/// map: the values stored under the key, here handed out as clones, in stored
/// order; `None` exactly when the key is absent.
#[verifier::external_body]
pub(crate) fn mm_get_vec(m: &multimap::MultiMap<u128, AddressEntry>, key: u128) -> (r: Option<
    Vec<AddressEntry>,
>)
    ensures
        match r {
            Some(v) => mm_store(*m).dom().contains(key) && v@ == mm_store(*m)[key],
            None => !mm_store(*m).dom().contains(key),
        },
{
    m.get_vec(&key).cloned()
}

/// Relies on multimap's `MultiMap::remove`: takes the key out of the map and
/// returns the values that were under it; `None` exactly when it was absent.
#[verifier::external_body]
pub(crate) fn mm_remove(m: &mut multimap::MultiMap<u128, AddressEntry>, key: u128) -> (r: Option<
    Vec<AddressEntry>,
>)
    ensures
        mm_store(*final(m)) == mm_store(*old(m)).remove(key),
        match r {
            Some(v) => mm_store(*old(m)).dom().contains(key) && v@ == mm_store(*old(m))[key],
            None => !mm_store(*old(m)).dom().contains(key),
        },
{
    m.remove(&key)
}

/// Relies on multimap's `MultiMap::insert`: pushes the value onto the key's
/// vector, creating a one-element vector when the key was absent.
#[verifier::external_body]
pub(crate) fn mm_insert(m: &mut multimap::MultiMap<u128, AddressEntry>, key: u128, value: AddressEntry)
    ensures
        mm_store(*final(m)) == mm_store(*old(m)).insert(
            key,
            key_entries(mm_store(*old(m)), key).push(value),
        ),
{
    m.insert(key, value)
}

/// Relies on multimap's `MultiMap::insert_many`: appends the values to the
/// key's vector, creating the vector when the key was absent.
#[verifier::external_body]
pub(crate) fn mm_insert_many(
    m: &mut multimap::MultiMap<u128, AddressEntry>,
    key: u128,
    values: Vec<AddressEntry>,
)
    ensures
        mm_store(*final(m)) == mm_store(*old(m)).insert(
            key,
            key_entries(mm_store(*old(m)), key) + values@,
        ),
{
    m.insert_many(key, values)
}

/// Relies on multimap's `MultiMap::keys`, the underlying hash map's key
/// iterator: every key held, each exactly once, in no promised order.
#[verifier::external_body]
pub(crate) fn mm_keys(m: &multimap::MultiMap<u128, AddressEntry>) -> (r: Vec<u128>)
    ensures
        r@.no_duplicates() && r@.len() == mm_store(*m).dom().len(),
        forall|i: int| 0 <= i < r@.len() ==> mm_store(*m).dom().contains(r@[i]),
        forall|k: u128| mm_store(*m).dom().contains(k) ==> r@.contains(k),
{
    m.keys().cloned().collect()
}

} // verus!
