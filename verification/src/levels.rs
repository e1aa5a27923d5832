//! Traversal helpers shared by the representations that keep an ordered
//! index: walking a `BTreeMap` into a sorted vector of pairs, and reversing
//! such a vector.

use std::collections::BTreeMap;
use vstd::prelude::*;
use vstd::std_specs::btree::spec_btree_map_iter;
use vstd::std_specs::cmp::OrdSpec;
use vstd::std_specs::iter::IteratorSpec;

use crate::model::{lists_levels_of, strictly_ascending};

verus! {

broadcast use
    vstd::laws_cmp::group_laws_cmp,
    vstd::std_specs::btree::group_btree_axioms;

/// Walk an ordered map once, collecting its entries in ascending key order.
pub(crate) fn collect_asc(m: &BTreeMap<u64, u64>) -> (out: Vec<(u64, u64)>)
    ensures
        strictly_ascending(out@),
        lists_levels_of(out@, m@),
        out@.len() == m@.dom().len(),
{
    let ghost rem = spec_btree_map_iter(m).remaining();
    let mut out: Vec<(u64, u64)> = Vec::new();
    for kv in it: m.iter()
        invariant
            it.seq() == rem,
            out@.len() == it.index(),
            forall|i: int| 0 <= i < out@.len() ==> out@[i] == (*(#[trigger] rem[i]).0, *rem[i].1),
    {
        out.push((*kv.0, *kv.1));
    }
    proof {
        assert(out@.len() == rem.len());
        assert(rem.len() == m@.dom().len());
        let keys = rem.map_values(|kv: (&u64, &u64)| *kv.0);
        assert(vstd::std_specs::btree::increasing_seq(keys));
        assert forall|i: int, j: int| 0 <= i < j < out@.len() implies out@[i].0 < out@[j].0 by {
            assert(keys[i] == *rem[i].0);
            assert(keys[j] == *rem[j].0);
            assert(keys[i].cmp_spec(&keys[j]) is Less);
        }
        assert forall|i: int| 0 <= i < out@.len() implies m@.contains_pair(
            #[trigger] out@[i].0,
            out@[i].1,
        ) by {
            assert(m@.contains_key(*rem[i].0) && m@[*rem[i].0] == *rem[i].1);
        }
        assert forall|k: u64| m@.dom().contains(k) implies exists|i: int|
            0 <= i < out@.len() && out@[i].0 == k by {
            assert(rem.contains((&k, &m@[k])));
            let i = choose|i: int| 0 <= i < rem.len() && rem[i] == (&k, &m@[k]);
            assert(out@[i].0 == k);
        }
    }
    out
}

/// Insert a pair whose key no present pair shares into its place in a
/// strictly ascending vector.
#[verifier::rlimit(100)]
fn insert_sorted(r: &mut Vec<(u64, u64)>, e: (u64, u64))
    requires
        strictly_ascending(old(r)@),
        forall|i: int| 0 <= i < old(r)@.len() ==> (#[trigger] old(r)@[i]).0 != e.0,
    ensures
        strictly_ascending(final(r)@),
        final(r)@.len() == old(r)@.len() + 1,
        exists|i: int| 0 <= i < final(r)@.len() && final(r)@[i] == e,
        forall|i: int|
            0 <= i < old(r)@.len() ==> exists|j: int|
                0 <= j < final(r)@.len() && final(r)@[j] == #[trigger] old(r)@[i],
        forall|j: int|
            0 <= j < final(r)@.len() ==> final(r)@[j] == e || exists|i: int|
                0 <= i < old(r)@.len() && old(r)@[i] == #[trigger] final(r)@[j],
{
    let mut pos: usize = 0;
    while pos < r.len() && r[pos].0 < e.0
        invariant
            pos <= r@.len(),
            r@ == old(r)@,
            forall|i: int| 0 <= i < pos ==> (#[trigger] r@[i]).0 < e.0,
        decreases r@.len() - pos,
    {
        pos = pos + 1;
    }
    let ghost prev = r@;
    r.insert(pos, e);
    proof {
        assert(r@ == prev.insert(pos as int, e));
        assert forall|i: int, j: int| 0 <= i < j < r@.len() implies r@[i].0 < r@[j].0 by {
            if j < pos {
                assert(r@[i] == prev[i] && r@[j] == prev[j]);
            } else if i < pos && j == pos {
                assert(r@[i] == prev[i]);
            } else if i == pos && j > pos {
                assert(r@[j] == prev[j - 1]);
                assert(prev[j - 1].0 >= prev[pos as int].0);
                assert(prev[pos as int].0 != e.0);
            } else if i < pos && j > pos {
                assert(r@[i] == prev[i] && r@[j] == prev[j - 1]);
                assert(prev[j - 1].0 >= prev[pos as int].0);
                assert(prev[pos as int].0 != e.0);
            } else if i > pos {
                assert(r@[i] == prev[i - 1] && r@[j] == prev[j - 1]);
            }
        }
        assert(r@[pos as int] == e);
        assert forall|i: int| 0 <= i < prev.len() implies exists|j: int|
            0 <= j < r@.len() && r@[j] == #[trigger] prev[i] by {
            if i < pos {
                assert(r@[i] == prev[i]);
            } else {
                assert(r@[i + 1] == prev[i]);
            }
        }
        assert forall|j: int|
            0 <= j < r@.len() implies r@[j] == e || exists|i: int|
                0 <= i < prev.len() && prev[i] == #[trigger] r@[j] by {
            if j < pos {
                assert(prev[j] == r@[j]);
            } else if j > pos {
                assert(prev[j - 1] == r@[j]);
            }
        }
    }
}

/// Every pair of `r` is one of the first `n` pairs of `es`.
#[verifier::opaque]
pub(crate) open spec fn from_among(r: Seq<(u64, u64)>, es: Seq<(u64, u64)>, n: int) -> bool {
    forall|i: int| 0 <= i < r.len() ==> exists|j: int| 0 <= j < n && es[j] == #[trigger] r[i]
}

/// Each of the first `n` pairs of `es` appears somewhere in `r`.
#[verifier::opaque]
pub(crate) open spec fn holds_all(r: Seq<(u64, u64)>, es: Seq<(u64, u64)>, n: int) -> bool {
    forall|j: int| 0 <= j < n ==> exists|i: int| 0 <= i < r.len() && r[i] == #[trigger] es[j]
}

/// Sort pairs with pairwise-distinct keys into strictly ascending key order.
/// The result holds exactly the pairs of the input.
pub(crate) fn sort_asc(es: &Vec<(u64, u64)>) -> (r: Vec<(u64, u64)>)
    requires
        forall|i: int, j: int| 0 <= i < j < es@.len() ==> es@[i].0 != es@[j].0,
    ensures
        strictly_ascending(r@),
        r@.len() == es@.len(),
        from_among(r@, es@, es@.len() as int),
        holds_all(r@, es@, es@.len() as int),
{
    let mut r: Vec<(u64, u64)> = Vec::new();
    let mut idx: usize = 0;
    proof {
        assert(from_among(r@, es@, 0)) by { reveal(from_among); }
        assert(holds_all(r@, es@, 0)) by { reveal(holds_all); }
    }
    while idx < es.len()
        invariant
            idx <= es@.len(),
            r@.len() == idx,
            strictly_ascending(r@),
            forall|i: int, j: int| 0 <= i < j < es@.len() ==> es@[i].0 != es@[j].0,
            from_among(r@, es@, idx as int),
            holds_all(r@, es@, idx as int),
        decreases es@.len() - idx,
    {
        let e = es[idx];
        proof {
            assert forall|i: int| 0 <= i < r@.len() implies (#[trigger] r@[i]).0 != e.0 by {
                reveal(from_among);
                let j = choose|j: int| 0 <= j < idx && es@[j] == r@[i];
                assert(es@[j].0 != es@[idx as int].0);
            }
        }
        let ghost prev = r@;
        insert_sorted(&mut r, e);
        proof {
            assert(from_among(r@, es@, idx + 1)) by {
                reveal(from_among);
                assert forall|i: int| 0 <= i < r@.len() implies exists|j: int|
                    0 <= j < idx + 1 && es@[j] == #[trigger] r@[i] by {
                    if r@[i] == e {
                        assert(es@[idx as int] == r@[i]);
                    } else {
                        let i0 = choose|i0: int| 0 <= i0 < prev.len() && prev[i0] == r@[i];
                        let j = choose|j: int| 0 <= j < idx && es@[j] == prev[i0];
                        assert(es@[j] == r@[i]);
                    }
                }
            }
            assert(holds_all(r@, es@, idx + 1)) by {
                reveal(holds_all);
                assert forall|j: int| 0 <= j < idx + 1 implies exists|i: int|
                    0 <= i < r@.len() && r@[i] == #[trigger] es@[j] by {
                    if j == idx {
                        let i = choose|i: int| 0 <= i < r@.len() && r@[i] == e;
                        assert(r@[i] == es@[j]);
                    } else {
                        let i0 = choose|i0: int| 0 <= i0 < prev.len() && prev[i0] == es@[j];
                        let i = choose|i: int| 0 <= i < r@.len() && r@[i] == prev[i0];
                        assert(r@[i] == es@[j]);
                    }
                }
            }
        }
        idx = idx + 1;
    }
    r
}

/// The same pairs in the opposite order.
pub(crate) fn reversed(v: &Vec<(u64, u64)>) -> (r: Vec<(u64, u64)>)
    ensures
        r@ == v@.reverse(),
{
    let mut r: Vec<(u64, u64)> = Vec::new();
    let mut i: usize = v.len();
    while i > 0
        invariant
            i <= v.len(),
            r@.len() == v@.len() - i,
            forall|j: int| 0 <= j < r@.len() ==> r@[j] == v@[v@.len() - 1 - j],
        decreases i,
    {
        i = i - 1;
        r.push(v[i]);
    }
    proof {
        assert(r@ =~= v@.reverse());
    }
    r
}

} // verus!
