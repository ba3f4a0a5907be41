//! Concurrent hash maps of the `dashmap` crate, held by one owner.
//!
//! A map is only ever reached through its owner, so that changing it takes a `&mut` reference and
//! what it holds between two changes stays the same. The value at a key is changed by taking it
//! out and putting it back.

use core::hash::Hash;
use dashmap::DashMap;
use vstd::prelude::*;

verus! {

/// The maps of the `dashmap` crate.
#[verifier::external_type_specification]
#[verifier::external_body]
#[verifier::reject_recursive_types(K)]
#[verifier::reject_recursive_types(V)]
#[verifier::reject_recursive_types(S)]
pub struct ExDashMap<K, V, S>(DashMap<K, V, S>);

/// A map whose entries have a name. The keys are byte arrays and integers, of which two are one
/// key exactly where they are equal.
pub(crate) trait Table<K: View, V> {
    /// The entries of the map.
    spec fn entries(&self) -> Map<K::V, V>;
}

/// `DashMap::contains_key`: whether there is an entry with `key`.
#[verifier::external_body]
pub(crate) fn contains_key<K: View + Eq + Hash, V>(table: &DashMap<K, V>, key: &K) -> (found: bool)
    where DashMap<K, V>: Table<K, V>
    ensures
        found == table.entries().contains_key(key@),
{
    table.contains_key(key)
}

/// `DashMap::view`: what `f` makes of the value at `key`, if there is one.
#[verifier::external_body]
pub(crate) fn view<K: View + Eq + Hash, V, R, F: FnOnce(&V) -> R>(
    table: &DashMap<K, V>,
    key: &K,
    f: F,
) -> (seen: Option<R>) where DashMap<K, V>: Table<K, V>
    requires
        table.entries().contains_key(key@) ==> call_requires(f, (&table.entries()[key@],)),
    ensures
        match seen {
            Some(result) => {
                &&& table.entries().contains_key(key@)
                &&& call_ensures(f, (&table.entries()[key@],), result)
            },
            None => !table.entries().contains_key(key@),
        },
{
    table.view(key, |_, value| f(value))
}

/// `DashMap::insert`: sets the value at `key`.
#[verifier::external_body]
pub(crate) fn insert<K: View + Eq + Hash, V>(table: &mut DashMap<K, V>, key: K, value: V)
    where DashMap<K, V>: Table<K, V>
    ensures
        final(table).entries() == old(table).entries().insert(key@, value),
{
    table.insert(key, value);
}

/// `DashMap::remove`: takes the entry with `key` out, if there is one.
#[verifier::external_body]
pub(crate) fn remove<K: View + Eq + Hash, V>(table: &mut DashMap<K, V>, key: &K) -> (taken: Option<
    V,
>) where DashMap<K, V>: Table<K, V>
    ensures
        final(table).entries() == old(table).entries().remove(key@),
        taken == old(table).entries().get(key@),
{
    table.remove(key).map(|entry| entry.1)
}

/// `DashMap::len`: the number of entries.
#[verifier::external_body]
pub(crate) fn len<K: View + Eq + Hash, V>(table: &DashMap<K, V>) -> (count: usize)
    where DashMap<K, V>: Table<K, V>
    ensures
        count == table.entries().len(),
{
    table.len()
}

/// `DashMap::iter`: the keys of the entries, each once, in no particular order.
#[verifier::external_body]
pub(crate) fn keys<K: View + Eq + Hash + Copy, V>(table: &DashMap<K, V>) -> (found: Vec<K>)
    where DashMap<K, V>: Table<K, V>
    ensures
        views(found@).no_duplicates(),
        views(found@).to_set() == table.entries().dom(),
{
    table.iter().map(|entry| *entry.key()).collect()
}

/// The views of keys.
pub open spec fn views<K: View>(keys: Seq<K>) -> Seq<K::V> {
    Seq::new(keys.len(), |i: int| keys[i]@)
}

} // verus!
