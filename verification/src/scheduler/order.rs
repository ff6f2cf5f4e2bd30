//! Ranking by a pair of keys, and sorting by rank.

use crate::util::cmp_i32;
use std::cmp::Ordering;
use vstd::prelude::*;
use vstd::relations::{sorted_by, total_ordering};
use vstd::seq_lib::{lemma_sorted_unique, to_multiset_insert};

verus! {

/// An item ranked first by a signed key, then by its own number.
pub type Ranked = (i32, usize);

/// `a` comes no later than `b`: its key is smaller, or the keys agree and its
/// number is no larger.
pub open spec fn rank_le(a: Ranked, b: Ranked) -> bool {
    a.0 < b.0 || (a.0 == b.0 && a.1 <= b.1)
}

/// `rank_le` as a relation.
pub open spec fn by_rank() -> spec_fn(Ranked, Ranked) -> bool {
    |a: Ranked, b: Ranked| rank_le(a, b)
}

/// Ranking is a total order.
pub proof fn lemma_rank_total()
    ensures
        total_ordering(by_rank()),
{
    let r = by_rank();
    assert forall|x: Ranked, y: Ranked| #[trigger] r(x, y) && r(y, x) implies x == y by {}
}

/// Whether `a` comes no later than `b`.
pub fn precedes(a: &Ranked, b: &Ranked) -> (r: bool)
    ensures
        r == rank_le(*a, *b),
{
    match cmp_i32(a.0, b.0) {
        Ordering::Less => true,
        Ordering::Greater => false,
        Ordering::Equal => a.1 <= b.1,
    }
}

/// The items in ascending rank.
pub fn sort_ranked(items: &Vec<Ranked>) -> (sorted: Vec<Ranked>)
    ensures
        sorted@ == items@.sort_by(by_rank()),
{
    let mut sorted: Vec<Ranked> = Vec::new();
    let mut i: usize = 0;
    proof {
        assert(items@.take(0) =~= Seq::<Ranked>::empty());
    }
    while i < items.len()
        invariant
            i <= items.len(),
            sorted_by(sorted@, by_rank()),
            sorted@.to_multiset() == items@.take(i as int).to_multiset(),
            sorted@.len() == i,
        decreases items.len() - i,
    {
        let item = items[i];
        let mut p: usize = 0;
        while p < sorted.len() && precedes(&sorted[p], &item)
            invariant
                p <= sorted.len(),
                forall|k: int| 0 <= k < p ==> rank_le(#[trigger] sorted@[k], item),
            decreases sorted.len() - p,
        {
            p = p + 1;
        }
        let ghost before = sorted@;
        sorted.insert(p, item);
        proof {
            before.insert_ensures(p as int, item);
            to_multiset_insert(before, p as int, item);
            items@.take(i as int).to_multiset_ensures();
            assert(items@.take(i as int + 1) =~= items@.take(i as int).push(item));
            let r = by_rank();
            assert forall|a: int, b: int| 0 <= a < b < sorted@.len() implies #[trigger] r(
                sorted@[a],
                sorted@[b],
            ) by {
                if a == p && b - 1 > p {
                    assert(r(before[p as int], before[b - 1]));
                }
            }
        }
        i = i + 1;
    }
    proof {
        assert(items@.take(i as int) =~= items@);
        lemma_rank_total();
        items@.lemma_sort_by_ensures(by_rank());
        lemma_sorted_unique(sorted@, items@.sort_by(by_rank()), by_rank());
    }
    sorted
}

} // verus!
