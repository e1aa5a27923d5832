//! The hybrid representation: per side, an ordered index and a hash index
//! that both point at the same storage slot for a price, plus a cached best
//! level.
//!
//! A price level's quantity lives in one arena cell addressed by a stable
//! slot number; both indices and the cache store slot numbers, never copies.
//! A repeat insert therefore mutates one cell and every reader — either
//! index, the cache, any traversal — observes it, with no structural change.
//! Deletion retires the slot to a freelist exactly once; the invariant that
//! live slots are pairwise distinct and disjoint from the freelist is what
//! rules out stale or doubled releases.

use std::collections::BTreeMap;
use vstd::pervasive::VecAdditionalExecFns;
use vstd::prelude::*;

use crate::book::{OrderBook, Side};
use crate::hashindex::{price_map_view, PriceMap};
use crate::levels::{collect_asc, reversed};
use crate::model::{
    is_greatest_price, is_least_price, lemma_asc_levels_unique, lemma_empty_lists_top,
    lemma_first_is_least, lemma_last_is_greatest, lemma_top_ask_some, lemma_top_bid_some,
    lemma_top_none, lists_levels_of, strictly_ascending,
};

verus! {

broadcast use
    vstd::laws_cmp::group_laws_cmp,
    vstd::std_specs::btree::group_btree_axioms;

/// The price levels reachable by reading each indexed slot out of the arena.
pub(crate) open spec fn slot_levels(tree: Map<u64, u64>, cells: Seq<u64>) -> Map<u64, u64> {
    Map::new(|p: u64| tree.dom().contains(p), |p: u64| cells[tree[p] as int])
}

/// The two indices of one side agree entry for entry, every slot they store
/// is a live arena cell, and no two prices share a slot.
pub(crate) open spec fn index_ok(tree: Map<u64, u64>, hmap: Map<u64, u64>, cells: Seq<u64>) -> bool {
    &&& hmap == tree
    &&& forall|p: u64| tree.dom().contains(p) ==> (#[trigger] tree[p]) < cells.len()
    &&& forall|p1: u64, p2: u64|
        tree.dom().contains(p1) && tree.dom().contains(p2) && p1 != p2 ==> tree[p1] != tree[p2]
}

/// The cached best level is absent exactly on an empty side, and otherwise
/// names the side's best price together with that price's slot.
pub(crate) open spec fn cache_ok(is_bid: bool, tree: Map<u64, u64>, cache: Option<(u64, u64)>) -> bool {
    match cache {
        None => forall|p: u64| !tree.dom().contains(p),
        Some(c) => tree.contains_pair(c.0, c.1) && if is_bid {
            is_greatest_price(tree, c.0)
        } else {
            is_least_price(tree, c.0)
        },
    }
}

/// Freelist discipline: every free slot is a live cell, listed once, and
/// used by neither side.
pub(crate) open spec fn free_ok(
    free: Seq<u64>,
    cells: Seq<u64>,
    tree: Map<u64, u64>,
    other: Map<u64, u64>,
) -> bool {
    &&& forall|i: int| 0 <= i < free.len() ==> (#[trigger] free[i]) < cells.len()
    &&& forall|i: int, j: int| 0 <= i < j < free.len() ==> free[i] != free[j]
    &&& forall|i: int, p: u64|
        0 <= i < free.len() && tree.dom().contains(p) ==> (#[trigger] free[i]) != (
        #[trigger] tree[p])
    &&& forall|i: int, p: u64|
        0 <= i < free.len() && other.dom().contains(p) ==> (#[trigger] free[i]) != (
        #[trigger] other[p])
}

/// No slot serves a price on both sides.
pub(crate) open spec fn sides_disjoint(tree: Map<u64, u64>, other: Map<u64, u64>) -> bool {
    forall|p: u64, q: u64|
        tree.dom().contains(p) && other.dom().contains(q) ==> (#[trigger] tree[p]) != (
        #[trigger] other[q])
}

/// Upsert one side.  A known price is a single cell write; a new price takes
/// a slot from the freelist (or grows the arena), wires it into both
/// indices, and advances the cache when the price beats the cached best.
#[verifier::rlimit(100)]
fn side_insert(
    tree: &mut BTreeMap<u64, u64>,
    hmap: &mut PriceMap,
    cells: &mut Vec<u64>,
    free: &mut Vec<u64>,
    cache: &mut Option<(u64, u64)>,
    is_bid: bool,
    price: u64,
    quantity: u64,
    Ghost(other): Ghost<Map<u64, u64>>,
)
    requires
        index_ok(old(tree)@, price_map_view(*old(hmap)), old(cells)@),
        cache_ok(is_bid, old(tree)@, *old(cache)),
        sides_disjoint(old(tree)@, other),
        free_ok(old(free)@, old(cells)@, old(tree)@, other),
        forall|q: u64| other.dom().contains(q) ==> (#[trigger] other[q]) < old(cells)@.len(),
    ensures
        index_ok(final(tree)@, price_map_view(*final(hmap)), final(cells)@),
        cache_ok(is_bid, final(tree)@, *final(cache)),
        sides_disjoint(final(tree)@, other),
        free_ok(final(free)@, final(cells)@, final(tree)@, other),
        final(cells)@.len() >= old(cells)@.len(),
        slot_levels(final(tree)@, final(cells)@) == slot_levels(old(tree)@, old(cells)@).insert(
            price,
            quantity,
        ),
        slot_levels(other, final(cells)@) == slot_levels(other, old(cells)@),
{
    let ghost t0 = tree@;
    let ghost cells0 = cells@;
    let found = hmap.get(price);
    if let Some(slot) = found {
        // Known price: one cell write, visible through every reference.
        assert(t0.dom().contains(price) && t0[price] == slot);
        assert(slot < cells@.len());
        cells.set(slot as usize, quantity);
        proof {
            assert(slot_levels(tree@, cells@) =~= slot_levels(t0, cells0).insert(
                price,
                quantity,
            )) by {
                assert(t0.insert(price, tree@[price]) =~= t0);
                assert forall|p: u64| tree@.dom().contains(p) && p != price implies cells@[tree@[p] as int]
                    == cells0[tree@[p] as int] by {
                    assert(t0[p] != slot);
                }
            }
            assert(slot_levels(other, cells@) =~= slot_levels(other, cells0)) by {
                assert forall|q: u64| other.dom().contains(q) implies cells@[other[q] as int]
                    == cells0[other[q] as int] by {
                    assert(other[q] != slot);
                }
            }
        }
        return ;
    }
    assert(!t0.dom().contains(price));
    // New price: take a retired slot if one exists, else grow the arena.
    let slot: u64 = match free.pop() {
        Some(s) => {
            assert(s < cells@.len());
            cells.set(s as usize, quantity);
            s
        },
        None => {
            let s = cells.len() as u64;
            cells.push(quantity);
            s
        },
    };
    proof {
        // The chosen slot serves no price on either side and is gone from
        // the freelist.
        assert(forall|p: u64| t0.dom().contains(p) ==> (#[trigger] t0[p]) != slot);
        assert(forall|q: u64| other.dom().contains(q) ==> (#[trigger] other[q]) != slot);
        assert(forall|i: int| 0 <= i < free@.len() ==> (#[trigger] free@[i]) != slot);
    }
    hmap.insert(price, slot);
    tree.insert(price, slot);
    let replace = match *cache {
        None => true,
        Some(c) => if is_bid {
            price > c.0
        } else {
            price < c.0
        },
    };
    if replace {
        *cache = Some((price, slot));
    }
    proof {
        let t1 = tree@;
        assert(t1 == t0.insert(price, slot));
        assert(slot_levels(t1, cells@) =~= slot_levels(t0, cells0).insert(price, quantity)) by {
            assert(cells@[slot as int] == quantity);
            assert forall|p: u64| t0.dom().contains(p) implies cells@[t0[p] as int] == cells0[t0[p] as int] by {
                assert(t0[p] != slot);
                assert(t0[p] < cells0.len());
            }
        }
        assert(slot_levels(other, cells@) =~= slot_levels(other, cells0)) by {
            assert forall|q: u64| other.dom().contains(q) implies cells@[other[q] as int]
                == cells0[other[q] as int] by {
                assert(other[q] != slot);
                assert(other[q] < cells0.len());
            }
        }
        assert(cache_ok(is_bid, t1, *cache)) by {
            match *old(cache) {
                None => {
                    assert(forall|p: u64| t1.dom().contains(p) ==> p == price);
                },
                Some(c) => {
                    assert(c.0 != price);
                    assert(t1.contains_pair(c.0, c.1));
                },
            }
        }
    }
}

/// Delete one side's level, if present.  The hash index answers whether the
/// price is live; the ordered index drops it; the slot goes back on the
/// freelist exactly once; the cache is recomputed from the ordered index's
/// boundary only when the deleted price was the cached best — and strictly
/// after the removal has taken effect.
#[verifier::rlimit(100)]
fn side_delete(
    tree: &mut BTreeMap<u64, u64>,
    hmap: &mut PriceMap,
    free: &mut Vec<u64>,
    cache: &mut Option<(u64, u64)>,
    is_bid: bool,
    price: u64,
    Ghost(cells): Ghost<Seq<u64>>,
    Ghost(other): Ghost<Map<u64, u64>>,
)
    requires
        index_ok(old(tree)@, price_map_view(*old(hmap)), cells),
        cache_ok(is_bid, old(tree)@, *old(cache)),
        sides_disjoint(old(tree)@, other),
        free_ok(old(free)@, cells, old(tree)@, other),
    ensures
        index_ok(final(tree)@, price_map_view(*final(hmap)), cells),
        cache_ok(is_bid, final(tree)@, *final(cache)),
        sides_disjoint(final(tree)@, other),
        free_ok(final(free)@, cells, final(tree)@, other),
        final(tree)@ == old(tree)@.remove(price),
{
    let ghost t0 = tree@;
    let removed = hmap.remove(price);
    if let Some(slot) = removed {
        assert(t0.dom().contains(price) && t0[price] == slot);
        tree.remove(&price);
        assert(tree@ == t0.remove(price));
        // Release the slot: it served only this price, so this is the one
        // and only release.
        proof {
            assert(forall|i: int| 0 <= i < free@.len() ==> (#[trigger] free@[i]) != slot);
            assert(forall|p: u64|
                tree@.dom().contains(p) ==> (#[trigger] tree@[p]) != slot);
        }
        free.push(slot);
        let recompute = match *cache {
            Some(c) => c.0 == price,
            None => false,
        };
        if recompute {
            // Read the new boundary strictly after the removal took effect.
            let listing = collect_asc(tree);
            if listing.len() == 0 {
                *cache = None;
                proof {
                    lemma_empty_lists_top(listing@, tree@);
                    assert(forall|p: u64| !tree@.dom().contains(p));
                }
            } else {
                if is_bid {
                    let c = listing[listing.len() - 1];
                    *cache = Some(c);
                    proof {
                        lemma_last_is_greatest(listing@, tree@);
                    }
                } else {
                    let c = listing[0];
                    *cache = Some(c);
                    proof {
                        lemma_first_is_least(listing@, tree@);
                    }
                }
            }
        } else {
            proof {
                assert(cache_ok(is_bid, tree@, *cache)) by {
                    match *old(cache) {
                        Some(c) => {
                            assert(c.0 != price);
                            assert(tree@.contains_pair(c.0, c.1));
                        },
                        None => {},
                    }
                }
            }
        }
    } else {
        proof {
            assert(!t0.dom().contains(price));
            assert(tree@ =~= t0.remove(price));
            assert(price_map_view(*hmap) =~= tree@);
        }
    }
}

/// A book that pairs an ordered index and a hash index over shared arena
/// storage, with a cached best level per side.
pub struct HybridBook {
    cells: Vec<u64>,
    free: Vec<u64>,
    asks: BTreeMap<u64, u64>,
    bids: BTreeMap<u64, u64>,
    askmap: PriceMap,
    bidmap: PriceMap,
    topbid: Option<(u64, u64)>,
    topask: Option<(u64, u64)>,
}

impl HybridBook {
    /// An empty book.
    pub fn new() -> (r: Self)
        ensures
            r.wf(),
            r.bid_levels() == crate::model::no_levels(),
            r.ask_levels() == crate::model::no_levels(),
    {
        let r = Self {
            cells: Vec::new(),
            free: Vec::new(),
            asks: BTreeMap::new(),
            bids: BTreeMap::new(),
            askmap: PriceMap::new(),
            bidmap: PriceMap::new(),
            topbid: None,
            topask: None,
        };
        proof {
            assert(r.bid_levels() =~= crate::model::no_levels());
            assert(r.ask_levels() =~= crate::model::no_levels());
        }
        r
    }
}

/// Walk an ordered index and read each level's quantity through its slot.
fn read_levels(tree: &BTreeMap<u64, u64>, cells: &Vec<u64>) -> (out: Vec<(u64, u64)>)
    requires
        forall|p: u64| tree@.dom().contains(p) ==> (#[trigger] tree@[p]) < cells@.len(),
    ensures
        strictly_ascending(out@),
        lists_levels_of(out@, slot_levels(tree@, cells@)),
{
    let idx_list = collect_asc(tree);
    let mut out: Vec<(u64, u64)> = Vec::new();
    let mut i: usize = 0;
    while i < idx_list.len()
        invariant
            i <= idx_list@.len(),
            out@.len() == i,
            forall|p: u64| tree@.dom().contains(p) ==> (#[trigger] tree@[p]) < cells@.len(),
            lists_levels_of(idx_list@, tree@),
            forall|j: int|
                0 <= j < i ==> out@[j] == ((#[trigger] idx_list@[j]).0, cells@[idx_list@[j].1 as int]),
        decreases idx_list@.len() - i,
    {
        let pr = idx_list[i];
        let n = cells.len();
        proof {
            assert(tree@.contains_pair(pr.0, pr.1));
            assert(pr.1 < n);
        }
        out.push((pr.0, cells[pr.1 as usize]));
        i = i + 1;
    }
    proof {
        let levels = slot_levels(tree@, cells@);
        assert forall|a: int, b: int| 0 <= a < b < out@.len() implies out@[a].0 < out@[b].0 by {
            assert(idx_list@[a].0 < idx_list@[b].0);
        }
        assert forall|j: int| 0 <= j < out@.len() implies levels.contains_pair(
            (#[trigger] out@[j]).0,
            out@[j].1,
        ) by {
            assert(tree@.contains_pair(idx_list@[j].0, idx_list@[j].1));
        }
        assert forall|k: u64| levels.dom().contains(k) implies exists|j: int|
            0 <= j < out@.len() && out@[j].0 == k by {
            assert(tree@.dom().contains(k));
            let j = choose|j: int| 0 <= j < idx_list@.len() && idx_list@[j].0 == k;
            assert(out@[j].0 == k);
        }
    }
    out
}

impl OrderBook for HybridBook {
    closed spec fn bid_levels(&self) -> Map<u64, u64> {
        slot_levels(self.bids@, self.cells@)
    }

    closed spec fn ask_levels(&self) -> Map<u64, u64> {
        slot_levels(self.asks@, self.cells@)
    }

    closed spec fn wf(&self) -> bool {
        &&& index_ok(self.bids@, price_map_view(self.bidmap), self.cells@)
        &&& index_ok(self.asks@, price_map_view(self.askmap), self.cells@)
        &&& sides_disjoint(self.bids@, self.asks@)
        &&& free_ok(self.free@, self.cells@, self.bids@, self.asks@)
        &&& cache_ok(true, self.bids@, self.topbid)
        &&& cache_ok(false, self.asks@, self.topask)
    }

    fn insert(&mut self, side: Side, price: u64, quantity: u64) {
        match side {
            Side::Bid => {
                side_insert(
                    &mut self.bids,
                    &mut self.bidmap,
                    &mut self.cells,
                    &mut self.free,
                    &mut self.topbid,
                    true,
                    price,
                    quantity,
                    Ghost(self.asks@),
                );
            },
            Side::Ask => {
                side_insert(
                    &mut self.asks,
                    &mut self.askmap,
                    &mut self.cells,
                    &mut self.free,
                    &mut self.topask,
                    false,
                    price,
                    quantity,
                    Ghost(self.bids@),
                );
            },
        }
    }

    fn delete(&mut self, side: Side, price: u64) {
        match side {
            Side::Bid => {
                side_delete(
                    &mut self.bids,
                    &mut self.bidmap,
                    &mut self.free,
                    &mut self.topbid,
                    true,
                    price,
                    Ghost(self.cells@),
                    Ghost(self.asks@),
                );
                proof {
                    assert(self.bid_levels() =~= slot_levels(old(self).bids@, self.cells@).remove(
                        price,
                    ));
                }
            },
            Side::Ask => {
                side_delete(
                    &mut self.asks,
                    &mut self.askmap,
                    &mut self.free,
                    &mut self.topask,
                    false,
                    price,
                    Ghost(self.cells@),
                    Ghost(self.bids@),
                );
                proof {
                    assert(self.ask_levels() =~= slot_levels(old(self).asks@, self.cells@).remove(
                        price,
                    ));
                }
            },
        }
    }

    fn top(&self) -> (r: (Option<(u64, u64)>, Option<(u64, u64)>)) {
        // Constant time: read the cached pair for each side.
        let bid = match self.topbid {
            None => {
                proof {
                    assert forall|p: u64| !self.bid_levels().dom().contains(p) by {
                        assert(!self.bids@.dom().contains(p));
                    }
                    lemma_top_none(self.bid_levels());
                }
                None
            },
            Some((p, s)) => {
                let n = self.cells.len();
                proof {
                    assert(self.bids@.contains_pair(p, s));
                    assert(s < n);
                    assert(is_greatest_price(self.bid_levels(), p)) by {
                        assert(self.bid_levels().dom() =~= self.bids@.dom());
                    }
                    lemma_top_bid_some(self.bid_levels(), p);
                    assert(self.bid_levels()[p] == self.cells@[s as int]);
                }
                Some((p, self.cells[s as usize]))
            },
        };
        let ask = match self.topask {
            None => {
                proof {
                    assert forall|p: u64| !self.ask_levels().dom().contains(p) by {
                        assert(!self.asks@.dom().contains(p));
                    }
                    lemma_top_none(self.ask_levels());
                }
                None
            },
            Some((p, s)) => {
                let n = self.cells.len();
                proof {
                    assert(self.asks@.contains_pair(p, s));
                    assert(s < n);
                    assert(is_least_price(self.ask_levels(), p)) by {
                        assert(self.ask_levels().dom() =~= self.asks@.dom());
                    }
                    lemma_top_ask_some(self.ask_levels(), p);
                    assert(self.ask_levels()[p] == self.cells@[s as int]);
                }
                Some((p, self.cells[s as usize]))
            },
        };
        (bid, ask)
    }

    fn bids(&self) -> (r: Vec<(u64, u64)>) {
        let listing = read_levels(&self.bids, &self.cells);
        proof {
            assert(self.bid_levels().dom() =~= self.bids@.dom());
            lemma_asc_levels_unique(listing@, self.bid_levels());
        }
        reversed(&listing)
    }

    fn asks(&self) -> (r: Vec<(u64, u64)>) {
        let listing = read_levels(&self.asks, &self.cells);
        proof {
            assert(self.ask_levels().dom() =~= self.asks@.dom());
            lemma_asc_levels_unique(listing@, self.ask_levels());
        }
        listing
    }
}

impl Clone for HybridBook {
    /// An independent copy: the arena is deep-copied and both indices and
    /// the cache keep addressing it by slot, so they re-derive against the
    /// new storage and nothing aliases the original.
    fn clone(&self) -> (r: Self)
        ensures
            r.wf() <==> self.wf(),
            r.bid_levels() == self.bid_levels(),
            r.ask_levels() == self.ask_levels(),
    {
        let r = Self {
            cells: self.cells.clone(),
            free: self.free.clone(),
            asks: self.asks.clone(),
            bids: self.bids.clone(),
            askmap: self.askmap.clone(),
            bidmap: self.bidmap.clone(),
            topbid: self.topbid,
            topask: self.topask,
        };
        proof {
            assert(r.cells@ =~= self.cells@);
            assert(r.free@ =~= self.free@);
            assert(r.bid_levels() =~= self.bid_levels());
            assert(r.ask_levels() =~= self.ask_levels());
        }
        r
    }
}

} // verus!
