//! Two-dimensional integer coordinates with Manhattan geometry.

use vstd::prelude::*;

verus! {

/// A position on the map: a pair of signed integer coordinates.
///
/// Manhattan distance is the canonical metric for attack range and
/// movement cost.
#[derive(Debug, Clone, Copy, PartialEq, Eq, Structural)]
pub struct MapPosition {
    pub x: i32,
    pub y: i32,
}

/// Manhattan distance between two positions, as a mathematical integer.
pub open spec fn spec_manhattan(a: MapPosition, b: MapPosition) -> int {
    abs_diff(a.x as int, b.x as int) + abs_diff(a.y as int, b.y as int)
}

/// `|a - b|` over mathematical integers.
pub open spec fn abs_diff(a: int, b: int) -> int {
    if a >= b {
        a - b
    } else {
        b - a
    }
}

/// Two positions are 4-adjacent when they differ by one step along
/// exactly one axis.
pub open spec fn spec_adjacent(a: MapPosition, b: MapPosition) -> bool {
    spec_manhattan(a, b) == 1
}

impl MapPosition {
    pub fn new(x: i32, y: i32) -> (r: Self)
        ensures
            r.x == x,
            r.y == y,
    {
        MapPosition { x, y }
    }

    pub fn x(&self) -> (r: i32)
        ensures
            r == self.x,
    {
        self.x
    }

    pub fn y(&self) -> (r: i32)
        ensures
            r == self.y,
    {
        self.y
    }

    /// The position shifted by the given delta on each axis.
    pub fn offset(&self, dx: i32, dy: i32) -> (r: Self)
        requires
            i32::MIN <= self.x + dx <= i32::MAX,
            i32::MIN <= self.y + dy <= i32::MAX,
        ensures
            r.x == self.x + dx,
            r.y == self.y + dy,
    {
        MapPosition { x: self.x + dx, y: self.y + dy }
    }

    pub fn up(&self, dist: i32) -> (r: Self)
        requires
            i32::MIN <= self.y - dist <= i32::MAX,
        ensures
            r.x == self.x,
            r.y == self.y - dist,
    {
        MapPosition { x: self.x, y: self.y - dist }
    }

    pub fn down(&self, dist: i32) -> (r: Self)
        requires
            i32::MIN <= self.y + dist <= i32::MAX,
        ensures
            r.x == self.x,
            r.y == self.y + dist,
    {
        MapPosition { x: self.x, y: self.y + dist }
    }

    pub fn left(&self, dist: i32) -> (r: Self)
        requires
            i32::MIN <= self.x - dist <= i32::MAX,
        ensures
            r.x == self.x - dist,
            r.y == self.y,
    {
        MapPosition { x: self.x - dist, y: self.y }
    }

    pub fn right(&self, dist: i32) -> (r: Self)
        requires
            i32::MIN <= self.x + dist <= i32::MAX,
        ensures
            r.x == self.x + dist,
            r.y == self.y,
    {
        MapPosition { x: self.x + dist, y: self.y }
    }

    /// Manhattan distance to `other`.
    ///
    /// The machine limit: the distance must fit in `u32`. Positions that
    /// both lie inside any map always satisfy this.
    pub fn manhattan_distance(&self, other: &Self) -> (r: u32)
        requires
            spec_manhattan(*self, *other) <= u32::MAX,
        ensures
            r == spec_manhattan(*self, *other),
    {
        let dx: i64 = self.x as i64 - other.x as i64;
        let dy: i64 = self.y as i64 - other.y as i64;
        let ax: i64 = if dx >= 0 { dx } else { -dx };
        let ay: i64 = if dy >= 0 { dy } else { -dy };
        (ax + ay) as u32
    }

    /// The four axis-neighbours, in the order north, south, west, east.
    pub fn neighbors(&self) -> (r: [Self; 4])
        requires
            i32::MIN < self.x < i32::MAX,
            i32::MIN < self.y < i32::MAX,
        ensures
            r[0].x == self.x && r[0].y == self.y - 1,
            r[1].x == self.x && r[1].y == self.y + 1,
            r[2].x == self.x - 1 && r[2].y == self.y,
            r[3].x == self.x + 1 && r[3].y == self.y,
            forall|i: int| 0 <= i < 4 ==> spec_adjacent(*self, #[trigger] r[i]),
    {
        [
            MapPosition { x: self.x, y: self.y - 1 },
            MapPosition { x: self.x, y: self.y + 1 },
            MapPosition { x: self.x - 1, y: self.y },
            MapPosition { x: self.x + 1, y: self.y },
        ]
    }
}

} // verus!
