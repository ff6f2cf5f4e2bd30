//! The index of idle vehicles, asked for the vehicles nearest to a point.

use crate::scheduler::order::{by_rank, lemma_rank_total, sort_ranked, Ranked};
use crate::util::{lemma_manhattan_in_range, manhattan, Coord};
use vstd::prelude::*;
use vstd::relations::sorted_by;

verus! {

/// Each entry ranked by its distance from `query`, then by its number.
pub open spec fn ranked_from(entries: Seq<(Coord, usize)>, query: Coord) -> Seq<Ranked> {
    entries.map_values(|e: (Coord, usize)| (manhattan(e.0, query) as i32, e.1))
}

/// The entries in the order in which a search from `query` meets them: by
/// ascending distance, and at equal distance by ascending number.
pub open spec fn nearest_order(entries: Seq<(Coord, usize)>, query: Coord) -> Seq<Ranked> {
    ranked_from(entries, query).sort_by(by_rank())
}

/// The search order is sorted, holds every entry of the index, and holds
/// nothing else.
pub proof fn lemma_nearest_order(entries: Seq<(Coord, usize)>, query: Coord)
    ensures
        sorted_by(nearest_order(entries, query), by_rank()),
        nearest_order(entries, query).len() == entries.len(),
        forall|i: int|
            0 <= i < entries.len() ==> nearest_order(entries, query).contains(
                #[trigger] ranked_from(entries, query)[i],
            ),
        forall|k: int|
            0 <= k < entries.len() ==> ranked_from(entries, query).contains(
                #[trigger] nearest_order(entries, query)[k],
            ),
{
    let ranked = ranked_from(entries, query);
    let order = nearest_order(entries, query);
    lemma_rank_total();
    ranked.lemma_sort_by_ensures(by_rank());
    ranked.to_multiset_ensures();
    order.to_multiset_ensures();
    assert forall|i: int| 0 <= i < entries.len() implies order.contains(#[trigger] ranked[i]) by {
        assert(order.to_multiset().count(ranked[i]) > 0);
    }
    assert forall|k: int| 0 <= k < entries.len() implies ranked.contains(#[trigger] order[k]) by {
        assert(ranked.to_multiset().count(order[k]) > 0);
    }
}

/// Points on the grid, each with the number of the vehicle standing there.
pub struct SpatialIndex {
    entries: Vec<(Coord, usize)>,
}

impl View for SpatialIndex {
    type V = Seq<(Coord, usize)>;

    closed spec fn view(&self) -> Seq<(Coord, usize)> {
        self.entries@
    }
}

impl SpatialIndex {
    /// Every point of the index is in range.
    pub open spec fn wf(&self) -> bool {
        forall|i: int| 0 <= i < self@.len() ==> (#[trigger] self@[i]).0.in_range()
    }

    /// An index that holds nothing.
    pub fn new() -> (index: SpatialIndex)
        ensures
            index@ == Seq::<(Coord, usize)>::empty(),
            index.wf(),
    {
        SpatialIndex { entries: Vec::new() }
    }

    /// Enters the vehicle `item` as standing at `point`.
    pub fn add(&mut self, point: Coord, item: usize)
        ensures
            final(self)@ == old(self)@.push((point, item)),
    {
        self.entries.push((point, item));
    }

    /// Number of entries.
    pub fn size(&self) -> (n: usize)
        ensures
            n == self@.len(),
    {
        self.entries.len()
    }

    /// The entries by ascending distance from `query`, each as its distance
    /// and its number; entries at equal distance come by ascending number.
    pub fn nearest(&self, query: &Coord) -> (order: Vec<Ranked>)
        requires
            self.wf(),
            query.in_range(),
        ensures
            order@ == nearest_order(self@, *query),
    {
        let mut ranked: Vec<Ranked> = Vec::new();
        let mut i: usize = 0;
        while i < self.entries.len()
            invariant
                i <= self.entries@.len(),
                self.wf(),
                query.in_range(),
                ranked@.len() == i,
                forall|k: int| 0 <= k < i ==> ranked@[k] == #[trigger] ranked_from(self@, *query)[k],
            decreases self.entries.len() - i,
        {
            proof {
                assert(self@[i as int].0.in_range());
                lemma_manhattan_in_range(self.entries@[i as int].0, *query);
            }
            let entry = self.entries[i];
            ranked.push((entry.0.dist(query), entry.1));
            i = i + 1;
        }
        proof {
            assert(ranked@ =~= ranked_from(self@, *query));
        }
        sort_ranked(&ranked)
    }
}

} // verus!
