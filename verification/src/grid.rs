//! Integer grid coordinates of the tile map.
use vstd::prelude::*;

verus! {

/// A cell of the three-dimensional tile grid: `x`, `y` on the map, `z` the layer.
#[derive(Clone, Copy, Debug, PartialEq, Eq, Hash, Structural)]
pub struct GridPoint {
    pub x: i32,
    pub y: i32,
    pub z: i32,
}

impl GridPoint {
    pub fn new(x: i32, y: i32, z: i32) -> (p: GridPoint)
        ensures p.x == x, p.y == y, p.z == z,
    {
        GridPoint { x, y, z }
    }
}

} // verus!
