//! The one trusted boundary of the crate: a thin wrapper around
//! `hashbrown::HashMap<u64, u64>`, used as the hash index of the
//! hash-backed and hybrid books.
//!
//! Verus cannot read hashbrown, so the wrapper names the map's contents with
//! an uninterpreted view and each method's contract states, over that view,
//! what hashbrown's documentation and source promise.  Nothing is said about
//! iteration order: a hash map promises none.

use vstd::prelude::*;

use crate::model::no_levels;

verus! {

/// One side's hash index: a hashbrown map from price to a 64-bit payload
/// (a resting quantity, or a storage slot in the hybrid book).
#[verifier::external_body]
pub struct PriceMap {
    inner: hashbrown::HashMap<u64, u64>,
}

/// The entries that a `PriceMap` currently holds.
pub uninterp spec fn price_map_view(m: PriceMap) -> Map<u64, u64>;

impl PriceMap {
    /// Relies on `hashbrown::HashMap::new`: the new map holds no entries.
    #[verifier::external_body]
    pub(crate) fn new() -> (r: Self)
        ensures
            price_map_view(r) == no_levels(),
    {
        PriceMap { inner: hashbrown::HashMap::new() }
    }

    /// Relies on `hashbrown::HashMap::get`: `Some` exactly at a present key,
    /// holding that key's value.
    #[verifier::external_body]
    pub(crate) fn get(&self, k: u64) -> (r: Option<u64>)
        ensures
            r == (if price_map_view(*self).dom().contains(k) {
                Some(price_map_view(*self)[k])
            } else {
                None::<u64>
            }),
    {
        self.inner.get(&k).copied()
    }

    /// Relies on `hashbrown::HashMap::insert`: an upsert that returns the
    /// value previously at the key, if any.
    #[verifier::external_body]
    pub(crate) fn insert(&mut self, k: u64, v: u64) -> (r: Option<u64>)
        ensures
            price_map_view(*final(self)) == price_map_view(*old(self)).insert(k, v),
            r == (if price_map_view(*old(self)).dom().contains(k) {
                Some(price_map_view(*old(self))[k])
            } else {
                None::<u64>
            }),
    {
        self.inner.insert(k, v)
    }

    /// Relies on `hashbrown::HashMap::remove`: drops the key if present and
    /// returns the value that rested there.
    #[verifier::external_body]
    pub(crate) fn remove(&mut self, k: u64) -> (r: Option<u64>)
        ensures
            price_map_view(*final(self)) == price_map_view(*old(self)).remove(k),
            r == (if price_map_view(*old(self)).dom().contains(k) {
                Some(price_map_view(*old(self))[k])
            } else {
                None::<u64>
            }),
    {
        self.inner.remove(&k)
    }

    /// Relies on `hashbrown::HashMap::iter`: every entry is visited exactly
    /// once.  The order is whatever the hash table yields, so the contract
    /// promises none.
    #[verifier::external_body]
    pub(crate) fn entries(&self) -> (r: Vec<(u64, u64)>)
        ensures
            forall|i: int|
                0 <= i < r@.len() ==> price_map_view(*self).contains_pair(
                    (#[trigger] r@[i]).0,
                    r@[i].1,
                ),
            forall|i: int, j: int| 0 <= i < j < r@.len() ==> r@[i].0 != r@[j].0,
            forall|k: u64|
                price_map_view(*self).dom().contains(k) ==> exists|i: int|
                    0 <= i < r@.len() && r@[i].0 == k,
    {
        self.inner.iter().map(|(k, v)| (*k, *v)).collect()
    }
}

impl Clone for PriceMap {
    /// Relies on `hashbrown::HashMap::clone`: the copy holds the same
    /// entries and shares no storage with the original.
    #[verifier::external_body]
    fn clone(&self) -> (r: Self)
        ensures
            price_map_view(r) == price_map_view(*self),
    {
        PriceMap { inner: self.inner.clone() }
    }
}

} // verus!
