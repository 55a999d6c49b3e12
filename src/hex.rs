//! Hexagonal grid coordinates.

use vstd::prelude::*;

verus! {

/// Largest absolute value of a coordinate. Keeping both axial coordinates
/// in this range leaves the cube arithmetic of a distance inside `i32`.
pub const COORD_LIMIT: i32 = 268435456;

/// A cell of the hexagonal grid in axial coordinates. The third cube
/// coordinate is `-x - y`.
#[derive(Debug, Clone, Copy, PartialEq, Eq, Hash, Structural)]
pub struct Hex {
    pub x: i32,
    pub y: i32,
}

pub open spec fn abs(v: int) -> int {
    if v < 0 {
        -v
    } else {
        v
    }
}

pub open spec fn max3(a: int, b: int, c: int) -> int {
    if a >= b && a >= c {
        a
    } else if b >= c {
        b
    } else {
        c
    }
}

/// Number of steps between two cells along the grid.
pub open spec fn hex_distance(a: Hex, b: Hex) -> int {
    let dx = a.x - b.x;
    let dy = a.y - b.y;
    max3(abs(dx), abs(dy), abs(-dx - dy))
}

impl Hex {
    /// The coordinates lie within `COORD_LIMIT`.
    pub open spec fn in_range(self) -> bool {
        &&& -COORD_LIMIT <= self.x <= COORD_LIMIT
        &&& -COORD_LIMIT <= self.y <= COORD_LIMIT
    }

    pub fn new(x: i32, y: i32) -> (r: Hex)
        ensures
            r.x == x,
            r.y == y,
    {
        Hex { x, y }
    }

    /// Number of grid steps from `self` to `other`.
    pub fn distance(self, other: Hex) -> (r: u32)
        requires
            self.in_range(),
            other.in_range(),
        ensures
            r == hex_distance(self, other),
    {
        grid_distance(self, other)
    }
}

/// Relies on `hexx::Hex::unsigned_distance_to`: the largest absolute
/// difference of the three cube coordinates.
#[verifier::external_body]
fn grid_distance(a: Hex, b: Hex) -> (r: u32)
    requires
        a.in_range(),
        b.in_range(),
    ensures
        r == hex_distance(a, b),
{
    hexx::Hex::new(a.x, a.y).unsigned_distance_to(hexx::Hex::new(b.x, b.y))
}

} // verus!
