//! The mathematical model shared by every book representation.
//!
//! A side of a book is modelled as a finite `Map<u64, u64>` from price to
//! resting quantity.  This module defines what the best level and the sorted
//! listing of such a map are, proves that a strictly sorted, complete listing
//! is unique, and states the laws that every representation inherits through
//! its contracts.

use vstd::prelude::*;

use crate::Side;

verus! {

/// One mutation of a book: an upsert or a removal of a price level.
pub enum BookOp {
    Insert { side: Side, price: u64, quantity: u64 },
    Delete { side: Side, price: u64 },
}

/// A side with no levels at all.
pub open spec fn no_levels() -> Map<u64, u64> {
    Map::empty()
}

/// Price keys grow strictly from left to right.
pub open spec fn strictly_ascending<V>(s: Seq<(u64, V)>) -> bool {
    forall|i: int, j: int| 0 <= i < j < s.len() ==> s[i].0 < s[j].0
}

/// Price keys shrink strictly from left to right.
pub open spec fn strictly_descending<V>(s: Seq<(u64, V)>) -> bool {
    forall|i: int, j: int| 0 <= i < j < s.len() ==> s[i].0 > s[j].0
}

/// `s` lists exactly the levels of `m`: every listed pair is a level of `m`,
/// and every price of `m` is listed somewhere.
pub open spec fn lists_levels_of<V>(s: Seq<(u64, V)>, m: Map<u64, V>) -> bool {
    &&& forall|i: int| 0 <= i < s.len() ==> m.contains_pair(#[trigger] s[i].0, s[i].1)
    &&& forall|k: u64| m.dom().contains(k) ==> exists|i: int| 0 <= i < s.len() && s[i].0 == k
}

/// `p` is the lowest price of `m`.
pub open spec fn is_least_price(m: Map<u64, u64>, p: u64) -> bool {
    m.dom().contains(p) && forall|q: u64| m.dom().contains(q) ==> p <= q
}

/// `p` is the highest price of `m`.
pub open spec fn is_greatest_price(m: Map<u64, u64>, p: u64) -> bool {
    m.dom().contains(p) && forall|q: u64| m.dom().contains(q) ==> q <= p
}

/// The best level of a bid side: the one at the highest price, if any.
pub open spec fn top_bid(m: Map<u64, u64>) -> Option<(u64, u64)> {
    if exists|p: u64| is_greatest_price(m, p) {
        let p = choose|p: u64| is_greatest_price(m, p);
        Some((p, m[p]))
    } else {
        None
    }
}

/// The best level of an ask side: the one at the lowest price, if any.
pub open spec fn top_ask(m: Map<u64, u64>) -> Option<(u64, u64)> {
    if exists|p: u64| is_least_price(m, p) {
        let p = choose|p: u64| is_least_price(m, p);
        Some((p, m[p]))
    } else {
        None
    }
}

/// The levels of `m` listed in strictly ascending price order.
pub open spec fn asc_levels(m: Map<u64, u64>) -> Seq<(u64, u64)>
    decreases m.dom().len() when m.dom().finite()
{
    if m.dom().finite() && m.dom().len() > 0 {
        let p = choose|p: u64| is_least_price(m, p);
        if m.dom().contains(p) {
            seq![(p, m[p])] + asc_levels(m.remove(p))
        } else {
            Seq::empty()
        }
    } else {
        Seq::empty()
    }
}

/// The levels of `m` listed in strictly descending price order.
pub open spec fn desc_levels(m: Map<u64, u64>) -> Seq<(u64, u64)> {
    asc_levels(m).reverse()
}

/// Every finite, non-empty set of prices has a least element.
pub proof fn lemma_least_exists(s: Set<u64>)
    requires
        s.finite(),
        s.len() > 0,
    ensures
        exists|p: u64| s.contains(p) && forall|q: u64| s.contains(q) ==> p <= q,
    decreases s.len(),
{
    let x = s.choose();
    assert(s.contains(x));
    let s2 = s.remove(x);
    if s2.len() == 0 {
        assert(s2.is_empty());
        assert forall|q: u64| s.contains(q) implies x <= q by {
            if q != x {
                assert(s2.contains(q));
            }
        }
    } else {
        lemma_least_exists(s2);
        let p2 = choose|p: u64| s2.contains(p) && forall|q: u64| s2.contains(q) ==> p <= q;
        let least: u64 = if p2 <= x { p2 } else { x };
        assert forall|q: u64| s.contains(q) implies least <= q by {
            if q != x {
                assert(s2.contains(q));
            }
        }
        assert(s.contains(least) && forall|q: u64| s.contains(q) ==> least <= q);
    }
}

/// A finite, non-empty side has a lowest price.
pub proof fn lemma_has_least(m: Map<u64, u64>)
    requires
        m.dom().finite(),
        m.dom().len() > 0,
    ensures
        exists|p: u64| is_least_price(m, p),
{
    lemma_least_exists(m.dom());
    let w = choose|p: u64| m.dom().contains(p) && forall|q: u64| m.dom().contains(q) ==> p <= q;
    assert(is_least_price(m, w));
}

/// The ascending listing of a finite map is strictly ascending, lists exactly
/// the map's levels, and has one entry per level.
pub proof fn lemma_asc_levels_props(m: Map<u64, u64>)
    requires
        m.dom().finite(),
    ensures
        strictly_ascending(asc_levels(m)),
        lists_levels_of(asc_levels(m), m),
        asc_levels(m).len() == m.dom().len(),
    decreases m.dom().len(),
{
    if m.dom().len() > 0 {
        lemma_has_least(m);
        let p = choose|p: u64| is_least_price(m, p);
        assert(is_least_price(m, p));
        assert(m.dom().contains(p));
        let m2 = m.remove(p);
        let s = asc_levels(m);
        lemma_asc_levels_props(m2);
        let tail = asc_levels(m2);
        assert(s == seq![(p, m[p])] + tail);
        assert forall|i: int, j: int| 0 <= i < j < s.len() implies s[i].0 < s[j].0 by {
            if i == 0 {
                assert(m2.contains_pair(tail[j - 1].0, tail[j - 1].1));
                assert(m.dom().contains(s[j].0));
                assert(p <= s[j].0 && p != s[j].0);
            } else {
                assert(tail[i - 1].0 < tail[j - 1].0);
            }
        }
        assert forall|k: u64| m.dom().contains(k) implies exists|i: int|
            0 <= i < s.len() && s[i].0 == k by {
            if k == p {
                assert(s[0].0 == k);
            } else {
                assert(m2.dom().contains(k));
                let i = choose|i: int| 0 <= i < tail.len() && tail[i].0 == k;
                assert(s[i + 1].0 == k);
            }
        }
    }
}

/// A strictly ascending listing of a finite map's levels is the only one:
/// it equals `asc_levels`.  This is what makes the sorted traversal of a
/// book a function of the book's model alone, whatever representation
/// produced it.
pub proof fn lemma_asc_levels_unique(s: Seq<(u64, u64)>, m: Map<u64, u64>)
    requires
        m.dom().finite(),
        strictly_ascending(s),
        lists_levels_of(s, m),
    ensures
        s == asc_levels(m),
    decreases s.len(),
{
    if s.len() == 0 {
        assert(m.dom() =~= Set::empty()) by {
            assert forall|k: u64| !m.dom().contains(k) by {
                if m.dom().contains(k) {
                    let i = choose|i: int| 0 <= i < s.len() && s[i].0 == k;
                }
            }
        }
        assert(asc_levels(m) == Seq::<(u64, u64)>::empty());
    } else {
        let head = s[0];
        assert(m.contains_pair(head.0, head.1));
        assert(is_least_price(m, head.0)) by {
            assert forall|q: u64| m.dom().contains(q) implies head.0 <= q by {
                let i = choose|i: int| 0 <= i < s.len() && s[i].0 == q;
                if i > 0 {
                    assert(s[0].0 < s[i].0);
                }
            }
        }
        let p = choose|p: u64| is_least_price(m, p);
        assert(is_least_price(m, p));
        assert(p == head.0) by {
            assert(p <= head.0 && head.0 <= p);
        }
        let m2 = m.remove(p);
        let s2 = s.subrange(1, s.len() as int);
        assert(strictly_ascending(s2)) by {
            assert forall|i: int, j: int| 0 <= i < j < s2.len() implies s2[i].0 < s2[j].0 by {
                assert(s[i + 1].0 < s[j + 1].0);
            }
        }
        assert(lists_levels_of(s2, m2)) by {
            assert forall|i: int| 0 <= i < s2.len() implies m2.contains_pair(
                #[trigger] s2[i].0,
                s2[i].1,
            ) by {
                assert(m.contains_pair(s[i + 1].0, s[i + 1].1));
                assert(s[0].0 < s[i + 1].0);
            }
            assert forall|k: u64| m2.dom().contains(k) implies exists|i: int|
                0 <= i < s2.len() && s2[i].0 == k by {
                assert(m.dom().contains(k));
                let i = choose|i: int| 0 <= i < s.len() && s[i].0 == k;
                assert(i != 0);
                assert(s2[i - 1].0 == k);
            }
        }
        lemma_asc_levels_unique(s2, m2);
        assert(m[p] == head.1);
        assert(s =~= seq![(p, m[p])] + s2);
        assert(asc_levels(m) == seq![(p, m[p])] + asc_levels(m2));
    }
}

/// In a non-empty ascending listing, the last pair is the side's best bid.
pub proof fn lemma_last_is_top_bid(s: Seq<(u64, u64)>, m: Map<u64, u64>)
    requires
        strictly_ascending(s),
        lists_levels_of(s, m),
        s.len() > 0,
    ensures
        top_bid(m) == Some(s.last()),
{
    let best = s.last();
    assert(m.contains_pair(best.0, best.1));
    assert(is_greatest_price(m, best.0)) by {
        assert forall|q: u64| m.dom().contains(q) implies q <= best.0 by {
            let i = choose|i: int| 0 <= i < s.len() && s[i].0 == q;
            if i < s.len() - 1 {
                assert(s[i].0 < s[s.len() - 1].0);
            }
        }
    }
    let p = choose|p: u64| is_greatest_price(m, p);
    assert(is_greatest_price(m, p));
    assert(p == best.0) by {
        assert(p <= best.0 && best.0 <= p);
    }
}

/// In a non-empty ascending listing, the first pair is the side's best ask.
pub proof fn lemma_first_is_top_ask(s: Seq<(u64, u64)>, m: Map<u64, u64>)
    requires
        strictly_ascending(s),
        lists_levels_of(s, m),
        s.len() > 0,
    ensures
        top_ask(m) == Some(s[0]),
{
    let best = s[0];
    assert(m.contains_pair(best.0, best.1));
    assert(is_least_price(m, best.0)) by {
        assert forall|q: u64| m.dom().contains(q) implies best.0 <= q by {
            let i = choose|i: int| 0 <= i < s.len() && s[i].0 == q;
            if i > 0 {
                assert(s[0].0 < s[i].0);
            }
        }
    }
    let p = choose|p: u64| is_least_price(m, p);
    assert(is_least_price(m, p));
    assert(p == best.0) by {
        assert(p <= best.0 && best.0 <= p);
    }
}

/// A known highest price pins the best bid down.
pub proof fn lemma_top_bid_some(m: Map<u64, u64>, p: u64)
    requires
        is_greatest_price(m, p),
    ensures
        top_bid(m) == Some((p, m[p])),
{
    let w = choose|w: u64| is_greatest_price(m, w);
    assert(is_greatest_price(m, w));
    assert(w == p) by {
        assert(w <= p && p <= w);
    }
}

/// A known lowest price pins the best ask down.
pub proof fn lemma_top_ask_some(m: Map<u64, u64>, p: u64)
    requires
        is_least_price(m, p),
    ensures
        top_ask(m) == Some((p, m[p])),
{
    let w = choose|w: u64| is_least_price(m, w);
    assert(is_least_price(m, w));
    assert(w == p) by {
        assert(w <= p && p <= w);
    }
}

/// A side without any price has no best level.
pub proof fn lemma_top_none(m: Map<u64, u64>)
    requires
        forall|p: u64| !m.dom().contains(p),
    ensures
        top_bid(m) is None,
        top_ask(m) is None,
{
    if exists|p: u64| is_greatest_price(m, p) {
        let p = choose|p: u64| is_greatest_price(m, p);
        assert(m.dom().contains(p));
    }
    if exists|p: u64| is_least_price(m, p) {
        let p = choose|p: u64| is_least_price(m, p);
        assert(m.dom().contains(p));
    }
}

/// In a non-empty ascending listing, the last price is the highest.
pub proof fn lemma_last_is_greatest(s: Seq<(u64, u64)>, m: Map<u64, u64>)
    requires
        strictly_ascending(s),
        lists_levels_of(s, m),
        s.len() > 0,
    ensures
        m.contains_pair(s.last().0, s.last().1),
        is_greatest_price(m, s.last().0),
{
    let best = s.last();
    assert(m.contains_pair(best.0, best.1));
    assert forall|q: u64| m.dom().contains(q) implies q <= best.0 by {
        let i = choose|i: int| 0 <= i < s.len() && s[i].0 == q;
        if i < s.len() - 1 {
            assert(s[i].0 < s[s.len() - 1].0);
        }
    }
}

/// In a non-empty ascending listing, the first price is the lowest.
pub proof fn lemma_first_is_least(s: Seq<(u64, u64)>, m: Map<u64, u64>)
    requires
        strictly_ascending(s),
        lists_levels_of(s, m),
        s.len() > 0,
    ensures
        m.contains_pair(s[0].0, s[0].1),
        is_least_price(m, s[0].0),
{
    let best = s[0];
    assert(m.contains_pair(best.0, best.1));
    assert forall|q: u64| m.dom().contains(q) implies best.0 <= q by {
        let i = choose|i: int| 0 <= i < s.len() && s[i].0 == q;
        if i > 0 {
            assert(s[0].0 < s[i].0);
        }
    }
}

/// A listed pair whose price no listed pair exceeds is the side's best bid.
pub proof fn lemma_greatest_listed_is_top_bid(s: Seq<(u64, u64)>, m: Map<u64, u64>, b: (u64, u64))
    requires
        lists_levels_of(s, m),
        exists|i: int| 0 <= i < s.len() && s[i] == b,
        forall|i: int| 0 <= i < s.len() ==> (#[trigger] s[i]).0 <= b.0,
    ensures
        top_bid(m) == Some(b),
{
    let bi = choose|i: int| 0 <= i < s.len() && s[i] == b;
    assert(m.contains_pair(b.0, b.1));
    assert(is_greatest_price(m, b.0)) by {
        assert forall|q: u64| m.dom().contains(q) implies q <= b.0 by {
            let i = choose|i: int| 0 <= i < s.len() && s[i].0 == q;
            assert(s[i].0 <= b.0);
        }
    }
    let p = choose|p: u64| is_greatest_price(m, p);
    assert(is_greatest_price(m, p));
    assert(p == b.0) by {
        assert(p <= b.0 && b.0 <= p);
    }
}

/// A listed pair whose price no listed pair undercuts is the side's best ask.
pub proof fn lemma_least_listed_is_top_ask(s: Seq<(u64, u64)>, m: Map<u64, u64>, b: (u64, u64))
    requires
        lists_levels_of(s, m),
        exists|i: int| 0 <= i < s.len() && s[i] == b,
        forall|i: int| 0 <= i < s.len() ==> (#[trigger] s[i]).0 >= b.0,
    ensures
        top_ask(m) == Some(b),
{
    let bi = choose|i: int| 0 <= i < s.len() && s[i] == b;
    assert(m.contains_pair(b.0, b.1));
    assert(is_least_price(m, b.0)) by {
        assert forall|q: u64| m.dom().contains(q) implies b.0 <= q by {
            let i = choose|i: int| 0 <= i < s.len() && s[i].0 == q;
            assert(s[i].0 >= b.0);
        }
    }
    let p = choose|p: u64| is_least_price(m, p);
    assert(is_least_price(m, p));
    assert(p == b.0) by {
        assert(p <= b.0 && b.0 <= p);
    }
}

/// A side with an empty listing has no levels, hence no best level.
pub proof fn lemma_empty_lists_top(s: Seq<(u64, u64)>, m: Map<u64, u64>)
    requires
        lists_levels_of(s, m),
        s.len() == 0,
    ensures
        top_bid(m) is None,
        top_ask(m) is None,
        m.dom() =~= Set::empty(),
{
    assert forall|k: u64| !m.dom().contains(k) by {
        if m.dom().contains(k) {
            let i = choose|i: int| 0 <= i < s.len() && s[i].0 == k;
        }
    }
    if exists|p: u64| is_greatest_price(m, p) {
        let p = choose|p: u64| is_greatest_price(m, p);
        assert(m.dom().contains(p));
    }
    if exists|p: u64| is_least_price(m, p) {
        let p = choose|p: u64| is_least_price(m, p);
        assert(m.dom().contains(p));
    }
}

/// What a single operation does to the two sides of the model.
pub open spec fn apply_op(bids: Map<u64, u64>, asks: Map<u64, u64>, op: BookOp) -> (Map<u64, u64>, Map<u64, u64>) {
    match op {
        BookOp::Insert { side, price, quantity } => {
            if side == Side::Bid {
                (bids.insert(price, quantity), asks)
            } else {
                (bids, asks.insert(price, quantity))
            }
        },
        BookOp::Delete { side, price } => {
            if side == Side::Bid {
                (bids.remove(price), asks)
            } else {
                (bids, asks.remove(price))
            }
        },
    }
}

/// The model reached by running a sequence of operations on an empty book.
pub open spec fn run_ops(ops: Seq<BookOp>) -> (Map<u64, u64>, Map<u64, u64>)
    decreases ops.len()
{
    if ops.len() == 0 {
        (Map::empty(), Map::empty())
    } else {
        let (bids, asks) = run_ops(ops.drop_last());
        apply_op(bids, asks, ops.last())
    }
}

/// Cross-implementation equivalence: any finite sequence of insert/delete
/// operations determines the model outright, so any two books whose methods
/// meet the `OrderBook` contract and that ran the same operations report the
/// same best levels and the same sorted listings.
pub proof fn lemma_cross_implementation_equivalence(
    ops: Seq<BookOp>,
    bids1: Map<u64, u64>,
    asks1: Map<u64, u64>,
    bids2: Map<u64, u64>,
    asks2: Map<u64, u64>,
)
    requires
        (bids1, asks1) == run_ops(ops),
        (bids2, asks2) == run_ops(ops),
    ensures
        bids1 == bids2,
        asks1 == asks2,
        top_bid(bids1) == top_bid(bids2),
        top_ask(asks1) == top_ask(asks2),
        desc_levels(bids1) == desc_levels(bids2),
        asc_levels(asks1) == asc_levels(asks2),
{
}

/// Idempotent overwrite: setting the same price twice is the same as setting
/// it once with the second quantity, and the level count never grows.
pub proof fn lemma_idempotent_overwrite(m: Map<u64, u64>, p: u64, q1: u64, q2: u64)
    ensures
        m.insert(p, q1).insert(p, q2) == m.insert(p, q2),
        m.insert(p, q1).insert(p, q2).dom().len() == m.insert(p, q1).dom().len(),
{
    assert(m.insert(p, q1).insert(p, q2) =~= m.insert(p, q2));
    assert(m.insert(p, q1).insert(p, q2).dom() =~= m.insert(p, q1).dom());
}

/// No-op delete: removing a price that is not present leaves the side as it
/// was.
pub proof fn lemma_delete_absent(m: Map<u64, u64>, p: u64)
    requires
        !m.dom().contains(p),
    ensures
        m.remove(p) == m,
{
    assert(m.remove(p) =~= m);
}

/// Empty-book top: a side with no levels has no best level.
pub proof fn lemma_empty_top()
    ensures
        top_bid(Map::empty()) is None,
        top_ask(Map::empty()) is None,
{
    let e = Map::<u64, u64>::empty();
    if exists|p: u64| is_greatest_price(e, p) {
        let p = choose|p: u64| is_greatest_price(e, p);
        assert(e.dom().contains(p));
    }
    if exists|p: u64| is_least_price(e, p) {
        let p = choose|p: u64| is_least_price(e, p);
        assert(e.dom().contains(p));
    }
}

/// Ordering law: the bid listing is strictly descending by price and the ask
/// listing strictly ascending.
pub proof fn lemma_listing_order(m: Map<u64, u64>)
    requires
        m.dom().finite(),
    ensures
        strictly_ascending(asc_levels(m)),
        strictly_descending(desc_levels(m)),
{
    lemma_asc_levels_props(m);
    let s = asc_levels(m);
    let r = desc_levels(m);
    assert forall|i: int, j: int| 0 <= i < j < r.len() implies r[i].0 > r[j].0 by {
        assert(r[i] == s[s.len() - 1 - i]);
        assert(r[j] == s[s.len() - 1 - j]);
    }
}

} // verus!
