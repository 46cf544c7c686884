//! Integer vectors for chunk, tile and lattice coordinates.

use vstd::prelude::*;

verus! {

/// A pair of signed coordinates: a chunk coordinate, a global tile coordinate
/// or a world position on the lattice of whole world units.
#[derive(Clone, Copy, Debug, PartialEq, Eq, Hash, Structural)]
pub struct IVec2 {
    pub x: i32,
    pub y: i32,
}

/// A pair of unsigned coordinates: a tile coordinate inside a chunk, or a size.
#[derive(Clone, Copy, Debug, PartialEq, Eq, Hash, Structural)]
pub struct UVec2 {
    pub x: u32,
    pub y: u32,
}

impl IVec2 {
    /// The vector with the components `x` and `y`.
    pub fn new(x: i32, y: i32) -> (v: IVec2)
        ensures
            v.x == x,
            v.y == y,
    {
        IVec2 { x, y }
    }

    /// The vector whose two components both equal `v`.
    pub fn splat(v: i32) -> (r: IVec2)
        ensures
            r.x == v,
            r.y == v,
    {
        IVec2 { x: v, y: v }
    }

    /// Chebyshev distance between two points: the larger of the two axis distances.
    pub open spec fn chebyshev(self, other: IVec2) -> int {
        let dx = if self.x >= other.x { self.x - other.x } else { other.x - self.x };
        let dy = if self.y >= other.y { self.y - other.y } else { other.y - self.y };
        if dx >= dy { dx } else { dy }
    }

    /// Squared distance between two points.
    pub open spec fn distance2(self, other: IVec2) -> int {
        (self.x - other.x) * (self.x - other.x) + (self.y - other.y) * (self.y - other.y)
    }

    /// Whether `other` lies within Chebyshev distance `radius` of `self`.
    pub fn within(&self, other: &IVec2, radius: i32) -> (b: bool)
        ensures
            b == (self.chebyshev(*other) <= radius),
    {
        let dx: i64 = if self.x >= other.x { self.x as i64 - other.x as i64 } else { other.x as i64 - self.x as i64 };
        let dy: i64 = if self.y >= other.y { self.y as i64 - other.y as i64 } else { other.y as i64 - self.y as i64 };
        dx <= radius as i64 && dy <= radius as i64
    }
}

impl UVec2 {
    /// The vector with the components `x` and `y`.
    pub fn new(x: u32, y: u32) -> (v: UVec2)
        ensures
            v.x == x,
            v.y == y,
    {
        UVec2 { x, y }
    }

    /// The vector whose two components both equal `v`.
    pub fn splat(v: u32) -> (r: UVec2)
        ensures
            r.x == v,
            r.y == v,
    {
        UVec2 { x: v, y: v }
    }
}

} // verus!
