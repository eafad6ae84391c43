//! Terrain tiles: one occupied cell of the sparse tile map.

use vstd::prelude::*;

verus! {

/// The terrain variant a tile renders as.
#[derive(Clone, Copy, Debug, Hash, PartialEq, Eq, Structural)]
pub enum TileType {
    GrassBlock,
    GrassSlopeL,
    GrassSlopeR,
}

/// One occupied integer cell `(x, y, z)` of the terrain, measured in whole
/// tiles (not milli-units).
#[derive(Clone, Copy, Debug, PartialEq, Eq)]
pub struct Tile {
    pub tile_type: TileType,
    pub world_position: [i64; 3],
}

/// Mathematical model of a tile.
pub struct TileV {
    pub tile_type: TileType,
    pub x: int,
    pub y: int,
    pub z: int,
}

impl View for Tile {
    type V = TileV;

    open spec fn view(&self) -> TileV {
        TileV {
            tile_type: self.tile_type,
            x: self.world_position[0] as int,
            y: self.world_position[1] as int,
            z: self.world_position[2] as int,
        }
    }
}

impl Tile {
    /// Place a tile of the given type at an integer cell.
    pub fn new(position: [i64; 3], tile_type: TileType) -> (t: Tile)
        ensures
            t@ == (TileV {
                tile_type,
                x: position[0] as int,
                y: position[1] as int,
                z: position[2] as int,
            }),
    {
        Tile { tile_type, world_position: position }
    }
}

/// Whether the sequence of tiles occupies the cell `(x, y, z)`.
pub open spec fn occupies(tiles: Seq<TileV>, x: int, y: int, z: int) -> bool {
    exists|i: int|
        #![auto]
        0 <= i < tiles.len() && tiles[i].x == x && tiles[i].y == y && tiles[i].z == z
}

} // verus!
