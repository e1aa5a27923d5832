//! The ordered-map representation: one self-balancing ordered map per side.
//!
//! Mutation is logarithmic, the best price is a boundary element, and the
//! sorted traversals fall out of the map's own order.

use std::collections::BTreeMap;
use vstd::prelude::*;

use crate::book::{OrderBook, Side};
use crate::levels::{collect_asc, reversed};
use crate::model::{
    lemma_asc_levels_unique, lemma_empty_lists_top, lemma_first_is_top_ask, lemma_last_is_top_bid,
};

verus! {

broadcast use
    vstd::laws_cmp::group_laws_cmp,
    vstd::std_specs::btree::group_btree_axioms;

/// A book backed by one ordered map per side, keyed by price.
pub struct BTreeBook {
    asks: BTreeMap<u64, u64>,
    bids: BTreeMap<u64, u64>,
}

impl BTreeBook {
    /// An empty book.
    pub fn new() -> (r: Self)
        ensures
            r.wf(),
            r.bid_levels() == crate::model::no_levels(),
            r.ask_levels() == crate::model::no_levels(),
    {
        Self { asks: BTreeMap::new(), bids: BTreeMap::new() }
    }

    /// The map that stores the given side.
    fn get_map(&mut self, side: Side) -> (m: &mut BTreeMap<u64, u64>)
        ensures
            side == Side::Bid ==> *m == old(self).bids && final(self).bids == *final(m)
                && final(self).asks == old(self).asks,
            side == Side::Ask ==> *m == old(self).asks && final(self).asks == *final(m)
                && final(self).bids == old(self).bids,
    {
        match side {
            Side::Bid => &mut self.bids,
            Side::Ask => &mut self.asks,
        }
    }
}

impl OrderBook for BTreeBook {
    closed spec fn bid_levels(&self) -> Map<u64, u64> {
        self.bids@
    }

    closed spec fn ask_levels(&self) -> Map<u64, u64> {
        self.asks@
    }

    closed spec fn wf(&self) -> bool {
        true
    }

    fn insert(&mut self, side: Side, price: u64, quantity: u64) {
        self.get_map(side).insert(price, quantity);
    }

    fn delete(&mut self, side: Side, price: u64) {
        self.get_map(side).remove(&price);
    }

    fn top(&self) -> (r: (Option<(u64, u64)>, Option<(u64, u64)>)) {
        let bid_list = collect_asc(&self.bids);
        let ask_list = collect_asc(&self.asks);

        // The highest bid is the last entry of the ascending bid walk.
        let bid = if bid_list.len() == 0 {
            proof { lemma_empty_lists_top(bid_list@, self.bids@); }
            None
        } else {
            proof { lemma_last_is_top_bid(bid_list@, self.bids@); }
            Some(bid_list[bid_list.len() - 1])
        };
        // The lowest ask is the first entry of the ascending ask walk.
        let ask = if ask_list.len() == 0 {
            proof { lemma_empty_lists_top(ask_list@, self.asks@); }
            None
        } else {
            proof { lemma_first_is_top_ask(ask_list@, self.asks@); }
            Some(ask_list[0])
        };

        (bid, ask)
    }

    fn bids(&self) -> (r: Vec<(u64, u64)>) {
        // Reverse the ascending walk to get the highest bid first.
        let asc = collect_asc(&self.bids);
        proof { lemma_asc_levels_unique(asc@, self.bids@); }
        reversed(&asc)
    }

    fn asks(&self) -> (r: Vec<(u64, u64)>) {
        // The ascending walk already starts at the lowest ask.
        let asc = collect_asc(&self.asks);
        proof { lemma_asc_levels_unique(asc@, self.asks@); }
        asc
    }
}

impl Clone for BTreeBook {
    /// An independent copy: the duplicate carries the same levels, and no
    /// storage is shared, so mutating either book never shows in the other.
    fn clone(&self) -> (r: Self)
        ensures
            r.wf(),
            r.bid_levels() == self.bid_levels(),
            r.ask_levels() == self.ask_levels(),
    {
        Self { asks: self.asks.clone(), bids: self.bids.clone() }
    }
}

} // verus!
