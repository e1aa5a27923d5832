//! The hash-indexed representation: one hash map per side.
//!
//! Mutation is constant-time on average; the best price and the sorted
//! traversals pay for it with a full scan, respectively a sort, per call.

use vstd::prelude::*;

use crate::book::{OrderBook, Side};
use crate::hashindex::{price_map_view, PriceMap};
use crate::levels::{from_among, holds_all, reversed, sort_asc};
use crate::model::{
    lemma_asc_levels_unique, lemma_empty_lists_top, lemma_greatest_listed_is_top_bid,
    lemma_least_listed_is_top_ask, lists_levels_of, top_ask, top_bid,
};

verus! {

/// A book backed by one hash map per side, keyed by price.
pub struct HashMapBook {
    asks: PriceMap,
    bids: PriceMap,
}

/// The price of the best level seen so far never goes down (for bids) while
/// scanning, so the survivor of a full scan is the side's best bid.
fn best_bid_of(m: &PriceMap) -> (r: Option<(u64, u64)>)
    ensures
        r == top_bid(price_map_view(*m)),
{
    let es = m.entries();
    let mut best: Option<(u64, u64)> = None;
    let mut i: usize = 0;
    while i < es.len()
        invariant
            i <= es@.len(),
            best is None ==> i == 0,
            i > 0 ==> best is Some,
            best matches Some(b) ==> exists|t: int| 0 <= t < i && es@[t] == b,
            best matches Some(b) ==> forall|t: int| 0 <= t < i ==> (#[trigger] es@[t]).0 <= b.0,
        decreases es@.len() - i,
    {
        let e = es[i];
        best = match best {
            None => Some(e),
            Some(b) => if e.0 > b.0 {
                Some(e)
            } else {
                Some(b)
            },
        };
        i = i + 1;
    }
    proof {
        match best {
            None => {
                lemma_empty_lists_top(es@, price_map_view(*m));
            },
            Some(b) => {
                lemma_greatest_listed_is_top_bid(es@, price_map_view(*m), b);
            },
        }
    }
    best
}

/// The mirror scan: the survivor is the lowest price, the side's best ask.
fn best_ask_of(m: &PriceMap) -> (r: Option<(u64, u64)>)
    ensures
        r == top_ask(price_map_view(*m)),
{
    let es = m.entries();
    let mut best: Option<(u64, u64)> = None;
    let mut i: usize = 0;
    while i < es.len()
        invariant
            i <= es@.len(),
            best is None ==> i == 0,
            i > 0 ==> best is Some,
            best matches Some(b) ==> exists|t: int| 0 <= t < i && es@[t] == b,
            best matches Some(b) ==> forall|t: int| 0 <= t < i ==> (#[trigger] es@[t]).0 >= b.0,
        decreases es@.len() - i,
    {
        let e = es[i];
        best = match best {
            None => Some(e),
            Some(b) => if e.0 < b.0 {
                Some(e)
            } else {
                Some(b)
            },
        };
        i = i + 1;
    }
    proof {
        match best {
            None => {
                lemma_empty_lists_top(es@, price_map_view(*m));
            },
            Some(b) => {
                lemma_least_listed_is_top_ask(es@, price_map_view(*m), b);
            },
        }
    }
    best
}

/// Materialize one side's entries in strictly ascending price order.
fn side_asc(m: &PriceMap) -> (r: Vec<(u64, u64)>)
    ensures
        crate::model::strictly_ascending(r@),
        lists_levels_of(r@, price_map_view(*m)),
{
    let es = m.entries();
    let sorted = sort_asc(&es);
    proof {
        let view = price_map_view(*m);
        assert forall|i: int| 0 <= i < sorted@.len() implies view.contains_pair(
            (#[trigger] sorted@[i]).0,
            sorted@[i].1,
        ) by {
            reveal(from_among);
            let j = choose|j: int| 0 <= j < es@.len() && es@[j] == sorted@[i];
            assert(view.contains_pair(es@[j].0, es@[j].1));
        }
        assert forall|k: u64| view.dom().contains(k) implies exists|i: int|
            0 <= i < sorted@.len() && sorted@[i].0 == k by {
            reveal(holds_all);
            let j = choose|j: int| 0 <= j < es@.len() && es@[j].0 == k;
            let i = choose|i: int| 0 <= i < sorted@.len() && sorted@[i] == es@[j];
            assert(sorted@[i].0 == k);
        }
    }
    sorted
}

impl HashMapBook {
    /// An empty book.
    pub fn new() -> (r: Self)
        ensures
            r.wf(),
            r.bid_levels() == crate::model::no_levels(),
            r.ask_levels() == crate::model::no_levels(),
    {
        Self { asks: PriceMap::new(), bids: PriceMap::new() }
    }

    /// The map that stores the given side.
    fn get_map(&mut self, side: Side) -> (m: &mut PriceMap)
        ensures
            side == Side::Bid ==> *m == old(self).bids && final(self).bids == *final(m)
                && final(self).asks == old(self).asks,
            side == Side::Ask ==> *m == old(self).asks && final(self).asks == *final(m)
                && final(self).bids == old(self).bids,
    {
        match side {
            Side::Bid => &mut self.bids,
            Side::Ask => &mut self.asks,
        }
    }
}

impl OrderBook for HashMapBook {
    closed spec fn bid_levels(&self) -> Map<u64, u64> {
        price_map_view(self.bids)
    }

    closed spec fn ask_levels(&self) -> Map<u64, u64> {
        price_map_view(self.asks)
    }

    closed spec fn wf(&self) -> bool {
        price_map_view(self.bids).dom().finite() && price_map_view(self.asks).dom().finite()
    }

    fn insert(&mut self, side: Side, price: u64, quantity: u64) {
        self.get_map(side).insert(price, quantity);
    }

    fn delete(&mut self, side: Side, price: u64) {
        self.get_map(side).remove(price);
    }

    fn top(&self) -> (r: (Option<(u64, u64)>, Option<(u64, u64)>)) {
        (best_bid_of(&self.bids), best_ask_of(&self.asks))
    }

    fn bids(&self) -> (r: Vec<(u64, u64)>) {
        // Sort ascending, then flip to put the highest bid first.
        let sorted = side_asc(&self.bids);
        proof {
            lemma_asc_levels_unique(sorted@, price_map_view(self.bids));
        }
        reversed(&sorted)
    }

    fn asks(&self) -> (r: Vec<(u64, u64)>) {
        let sorted = side_asc(&self.asks);
        proof {
            lemma_asc_levels_unique(sorted@, price_map_view(self.asks));
        }
        sorted
    }
}

impl Clone for HashMapBook {
    /// An independent copy: the duplicate carries the same levels, and no
    /// storage is shared, so mutating either book never shows in the other.
    fn clone(&self) -> (r: Self)
        ensures
            r.wf() <==> self.wf(),
            r.bid_levels() == self.bid_levels(),
            r.ask_levels() == self.ask_levels(),
    {
        Self { asks: self.asks.clone(), bids: self.bids.clone() }
    }
}

} // verus!
