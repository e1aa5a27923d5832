//! The book contract: the operation set that every representation satisfies.

use vstd::prelude::*;

use crate::model::{apply_op, asc_levels, desc_levels, top_ask, top_bid, BookOp};

verus! {

/// Which side of the book a price level rests on.
#[derive(Clone, Copy, Hash, Eq, PartialEq, Structural, Debug)]
pub enum Side {
    Bid,
    Ask,
}

/// A single-symbol limit order book that aggregates resting quantity per
/// price level on two sides.
///
/// Each representation exposes its state as two finite price-to-quantity
/// maps, and every operation's effect is pinned to those maps, so any two
/// well-formed books with equal models answer `top`, `bids` and `asks`
/// identically.
pub trait OrderBook: Sized {
    /// The bid side as a price-to-quantity map.
    spec fn bid_levels(&self) -> Map<u64, u64>;

    /// The ask side as a price-to-quantity map.
    spec fn ask_levels(&self) -> Map<u64, u64>;

    /// The representation's internal invariant.
    spec fn wf(&self) -> bool;

    /// Upsert: set the quantity resting at `price` on `side`, replacing any
    /// quantity already there.
    fn insert(&mut self, side: Side, price: u64, quantity: u64)
        requires
            old(self).wf(),
        ensures
            final(self).wf(),
            (final(self).bid_levels(), final(self).ask_levels()) == apply_op(
                old(self).bid_levels(),
                old(self).ask_levels(),
                (BookOp::Insert { side, price, quantity }),
            ),
    ;

    /// Remove the level at `price` on `side`; a no-op if it is absent.
    fn delete(&mut self, side: Side, price: u64)
        requires
            old(self).wf(),
        ensures
            final(self).wf(),
            (final(self).bid_levels(), final(self).ask_levels()) == apply_op(
                old(self).bid_levels(),
                old(self).ask_levels(),
                (BookOp::Delete { side, price }),
            ),
    ;

    /// The best bid (highest price) and best ask (lowest price), each absent
    /// when that side is empty.
    fn top(&self) -> (r: (Option<(u64, u64)>, Option<(u64, u64)>))
        requires
            self.wf(),
        ensures
            r.0 == top_bid(self.bid_levels()),
            r.1 == top_ask(self.ask_levels()),
    ;

    /// All bid levels in strictly descending price order.
    fn bids(&self) -> (r: Vec<(u64, u64)>)
        requires
            self.wf(),
        ensures
            r@ == desc_levels(self.bid_levels()),
    ;

    /// All ask levels in strictly ascending price order.
    fn asks(&self) -> (r: Vec<(u64, u64)>)
        requires
            self.wf(),
        ensures
            r@ == asc_levels(self.ask_levels()),
    ;
}

} // verus!
