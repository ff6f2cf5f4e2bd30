//! Grid coordinates, the city-block metric and small helpers.

use std::cmp::Ordering;
use vstd::prelude::*;

verus! {

/// One discrete unit of simulated time.
pub type TimeStep = i32;

/// Largest magnitude a coordinate component may have for every city-block
/// distance between two points to fit in an `i32`.
pub const COORD_LIMIT: i32 = 0x1FFF_FFFF;

/// A point of the grid.
#[derive(Copy, Clone, Eq, PartialEq, Structural, Hash, Debug)]
pub struct Coord {
    pub x: i32,
    pub y: i32,
}

/// City-block distance between two points, as a mathematical integer.
pub open spec fn manhattan(a: Coord, b: Coord) -> int {
    (if a.x >= b.x { a.x - b.x } else { b.x - a.x })
        + (if a.y >= b.y { a.y - b.y } else { b.y - a.y })
}

/// The origin of the grid, where every vehicle starts.
pub open spec fn origin() -> Coord {
    Coord { x: 0, y: 0 }
}

/// City-block distance between `a` and `b`.
pub fn manhattan_dist(a: &Coord, b: &Coord) -> (d: i32)
    requires
        manhattan(*a, *b) <= i32::MAX,
    ensures
        d == manhattan(*a, *b),
{
    let dx: i64 = if a.x >= b.x { a.x as i64 - b.x as i64 } else { b.x as i64 - a.x as i64 };
    let dy: i64 = if a.y >= b.y { a.y as i64 - b.y as i64 } else { b.y as i64 - a.y as i64 };
    (dx + dy) as i32
}

/// Three-way comparison of two integers.
pub fn cmp_i32(a: i32, b: i32) -> (o: Ordering)
    ensures
        (o == Ordering::Less) == (a < b),
        (o == Ordering::Greater) == (a > b),
        (o == Ordering::Equal) == (a == b),
{
    if a < b {
        Ordering::Less
    } else if a > b {
        Ordering::Greater
    } else {
        Ordering::Equal
    }
}

impl Coord {
    /// Both components lie within `COORD_LIMIT` of zero.
    pub open spec fn in_range(self) -> bool {
        &&& -COORD_LIMIT <= self.x <= COORD_LIMIT
        &&& -COORD_LIMIT <= self.y <= COORD_LIMIT
    }

    pub fn new(x: i32, y: i32) -> (c: Coord)
        ensures
            c == (Coord { x, y }),
    {
        Coord { x, y }
    }

    /// City-block distance from `self` to `a`.
    pub fn dist(&self, a: &Coord) -> (d: i32)
        requires
            manhattan(*self, *a) <= i32::MAX,
        ensures
            d == manhattan(*self, *a),
    {
        manhattan_dist(self, a)
    }

    pub fn is_origin(&self) -> (b: bool)
        ensures
            b == (*self == origin()),
    {
        self.x == 0 && self.y == 0
    }

    /// Whether the point is close enough to zero for distances to fit.
    pub fn is_in_range(&self) -> (b: bool)
        ensures
            b == self.in_range(),
    {
        -COORD_LIMIT <= self.x && self.x <= COORD_LIMIT && -COORD_LIMIT <= self.y && self.y
            <= COORD_LIMIT
    }
}

impl Default for Coord {
    fn default() -> (c: Coord)
        ensures
            c == origin(),
    {
        Coord { x: 0, y: 0 }
    }
}

/// Distances between points in range fit in an `i32`.
pub proof fn lemma_manhattan_in_range(a: Coord, b: Coord)
    requires
        a.in_range(),
        b.in_range(),
    ensures
        0 <= manhattan(a, b) <= i32::MAX,
{
}

/// A counter that remembers where it started.
#[derive(Copy, Clone)]
pub struct Counter {
    counter: i32,
    start: i32,
}

impl Counter {
    /// What the counter stands at.
    pub closed spec fn value(self) -> int {
        self.counter as int
    }

    /// What the counter stood at when it was made.
    pub closed spec fn origin_value(self) -> int {
        self.start as int
    }

    pub fn start_zero() -> (c: Counter)
        ensures
            c.value() == 0,
            c.origin_value() == 0,
    {
        Counter { counter: 0, start: 0 }
    }

    pub fn start_one() -> (c: Counter)
        ensures
            c.value() == 1,
            c.origin_value() == 1,
    {
        Counter { counter: 1, start: 1 }
    }

    pub fn cur(&self) -> (n: i32)
        ensures
            n == self.value(),
    {
        self.counter
    }

    /// Counts one up.
    pub fn inc(&mut self)
        requires
            old(self).value() < i32::MAX,
        ensures
            final(self).value() == old(self).value() + 1,
            final(self).origin_value() == old(self).origin_value(),
    {
        self.counter = self.counter + 1;
    }

    /// Whether the counter stands where it started.
    pub fn is_start(&self) -> (b: bool)
        ensures
            b == (self.value() == self.origin_value()),
    {
        self.counter == self.start
    }
}

} // verus!
