//! Sorting of samples.
//!
//! Quantiles, the median and coarse-graining all need the series in
//! ascending numeric order. The engine sorts by the total order
//! [`crate::bits::spec_tle`], which extends the numeric order of binary64
//! values (NaN patterns, which would make the numeric order partial, sort
//! above every number). The result is pinned down exactly: it equals
//! `Seq::sort_by` of the input under that order.

use vstd::prelude::*;
use vstd::relations::{sorted_by, total_ordering};
use vstd::seq_lib::{lemma_sorted_unique, to_multiset_insert, to_multiset_remove};
use crate::bits;

verus! {

/// The total order on bit patterns, as a spec closure.
pub open spec fn tle_ord() -> spec_fn(u64, u64) -> bool {
    |a: u64, b: u64| bits::spec_tle(a, b)
}

/// The sorted rearrangement of a sequence of samples.
pub open spec fn sorted_version(s: Seq<u64>) -> Seq<u64> {
    s.sort_by(tle_ord())
}

/// Two patterns with the same order key are the same pattern.
proof fn lemma_order_key_injective(a: u64, b: u64)
    requires
        bits::spec_order_key(a) == bits::spec_order_key(b),
    ensures
        a == b,
{
    assert((if a & 0x8000_0000_0000_0000u64 != 0 {
        !a
    } else {
        a | 0x8000_0000_0000_0000u64
    }) == (if b & 0x8000_0000_0000_0000u64 != 0 {
        !b
    } else {
        b | 0x8000_0000_0000_0000u64
    }) ==> a == b) by (bit_vector);
}

/// The order the engine sorts by is a total order.
pub proof fn lemma_tle_total_ordering()
    ensures
        total_ordering(tle_ord()),
{
    let leq = tle_ord();
    assert forall|a: u64, b: u64| #[trigger] leq(a, b) && #[trigger] leq(b, a) implies a == b by {
        lemma_order_key_injective(a, b);
    }
    assert(vstd::relations::reflexive(leq));
    assert(vstd::relations::transitive(leq));
    assert(vstd::relations::strongly_connected(leq));
}

/// Sorts a vector of samples into ascending order under the engine's total
/// order; the result is exactly the sorted rearrangement of the input.
pub fn sort_samples(a: &Vec<u64>) -> (r: Vec<u64>)
    ensures
        r@ == sorted_version(a@),
        r@.len() == a@.len(),
        sorted_by(r@, tle_ord()),
        r@.to_multiset() == a@.to_multiset(),
{
    broadcast use vstd::seq_lib::group_to_multiset_ensures;
    broadcast use vstd::multiset::group_multiset_axioms;

    let mut r: Vec<u64> = Vec::new();
    let mut c: usize = 0;
    while c < a.len()
        invariant
            c <= a.len(),
            r@ == a@.take(c as int),
        decreases a.len() - c,
    {
        r.push(a[c]);
        assert(a@.take(c + 1) =~= a@.take(c as int).push(a@[c as int]));
        c = c + 1;
    }
    assert(a@.take(a.len() as int) =~= a@);

    let n: usize = r.len();
    let mut i: usize = 1;
    while i < n
        invariant
            n == r@.len() == a@.len(),
            i >= 1,
            i <= n || n == 0,
            r@.to_multiset() == a@.to_multiset(),
            forall|x: int, y: int|
                0 <= x < y < i ==> bits::spec_tle(#[trigger] r@[x], #[trigger] r@[y]),
        decreases n - i,
    {
        let ghost before = r@;
        let v: u64 = r.remove(i);
        proof {
            to_multiset_remove(before, i as int);
        }
        let mut p: usize = 0;
        while p < i && bits::tle(r[p], v)
            invariant
                p <= i < n,
                before.len() == n,
                r@.len() == n - 1,
                r@ == before.remove(i as int),
                v == before[i as int],
                forall|k: int| 0 <= k < p ==> bits::spec_tle(#[trigger] r@[k], v),
            decreases i - p,
        {
            p = p + 1;
        }
        let ghost mid = r@;
        let ghost stop = p;
        r.insert(p, v);
        proof {
            to_multiset_insert(mid, p as int, v);
            assert(before.contains(v));
            vstd::seq_lib::to_multiset_contains(before, v);
            assert(before.to_multiset().count(v) > 0);
            assert(r@.to_multiset() =~= before.to_multiset());
            assert forall|x: int, y: int|
                0 <= x < y < i + 1 implies bits::spec_tle(#[trigger] r@[x], #[trigger] r@[y]) by {
                let pp = stop as int;
                assert(pp == i || !bits::spec_tle(mid[pp], v));
                if y == pp {
                    assert(r@[y] == v);
                    assert(r@[x] == mid[x]);
                } else if x == pp {
                    assert(r@[x] == v);
                    assert(r@[y] == mid[y - 1]);
                } else if x < pp && y > pp {
                    assert(r@[x] == mid[x] && r@[y] == mid[y - 1]);
                } else if y < pp {
                    assert(r@[x] == mid[x] && r@[y] == mid[y]);
                } else {
                    assert(r@[x] == mid[x - 1] && r@[y] == mid[y - 1]);
                }
            }
        }
        i = i + 1;
    }
    proof {
        lemma_tle_total_ordering();
        assert(sorted_by(r@, tle_ord()));
        a@.lemma_sort_by_ensures(tle_ord());
        lemma_sorted_unique(r@, a@.sort_by(tle_ord()), tle_ord());
        assert(r@ =~= a@.sort_by(tle_ord()));
    }
    r
}

} // verus!
