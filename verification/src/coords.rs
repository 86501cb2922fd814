//! Grid position and chunk coordinate value types.

use vstd::prelude::*;

verus! {

/// A tile position on the logical grid: `x` grows to the right, `y` grows
/// downward the rows. Used only as a lookup key; in-bounds positions satisfy
/// `x < map_width_tiles` and `y < map_height_tiles`.
#[derive(Clone, Copy, Debug, PartialEq, Eq, Structural)]
pub struct TilePos {
    pub x: u32,
    pub y: u32,
}

/// The coordinate of a chunk within the grid of chunks: in-range coordinates
/// satisfy `x < map_width_chunks` and `y < map_height_chunks`.
#[derive(Clone, Copy, Debug, PartialEq, Eq, Structural)]
pub struct ChunkCoord {
    pub x: u32,
    pub y: u32,
}

impl TilePos {
    pub fn new(x: u32, y: u32) -> (r: TilePos)
        ensures
            r.x == x,
            r.y == y,
    {
        TilePos { x, y }
    }
}

impl ChunkCoord {
    pub fn new(x: u32, y: u32) -> (r: ChunkCoord)
        ensures
            r.x == x,
            r.y == y,
    {
        ChunkCoord { x, y }
    }
}

} // verus!
