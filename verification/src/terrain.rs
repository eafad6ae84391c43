//! The world terrain: a named square region of the sparse tile map.
//!
//! The terrain is generated once at server start and immutable thereafter.
//! Heights come from an external noise source (an outside collaborator that
//! this crate only models): the caller samples one integer height per column
//! and hands the whole grid over, or hands nothing and receives the
//! deterministic flat fallback.

use crate::coords::TILE_LIMIT;
use crate::tile::{occupies, Tile, TileType, TileV};
use vstd::arithmetic::div_mod::{lemma_fundamental_div_mod, lemma_mod_division_less_than_divisor};
use vstd::prelude::*;

verus! {

/// Radius, in tiles, of the region the server generates at start.
pub const TERRAIN_SIZE: u8 = 4;

/// Tiles per side of the square grid of the given radius.
pub open spec fn grid_width(size: int) -> int {
    2 * size + 1
}

/// Number of columns of the square grid of the given radius.
pub open spec fn grid_cell_count(size: int) -> int {
    grid_width(size) * grid_width(size)
}

/// The tile that belongs at index `i` of the generated grid: the grid is laid
/// out row-major, rows along `y`, starting at the corner `(cx-size, cy-size)`.
pub open spec fn grid_tile(cx: int, cy: int, size: int, z: int, i: int) -> TileV {
    TileV {
        tile_type: TileType::GrassBlock,
        x: cx - size + i % grid_width(size),
        y: cy - size + i / grid_width(size),
        z,
    }
}

/// A center whose whole grid stays inside the world's tile bounds.
pub open spec fn center_in_bounds(cx: int, cy: int, size: int) -> bool {
    &&& -TILE_LIMIT <= cx - size
    &&& cx + size <= TILE_LIMIT
    &&& -TILE_LIMIT <= cy - size
    &&& cy + size <= TILE_LIMIT
}

/// The sparse tile map of one region: its center, radius and occupied cells.
#[derive(Clone, Debug, PartialEq, Eq)]
pub struct TileManager {
    pub tiles: Vec<Tile>,
    pub position: [i64; 2],
    pub size: u8,
}

/// Mathematical model of a terrain region.
pub struct TileManagerV {
    pub tiles: Seq<TileV>,
    pub cx: int,
    pub cy: int,
    pub size: int,
}

impl View for TileManager {
    type V = TileManagerV;

    open spec fn view(&self) -> TileManagerV {
        TileManagerV {
            tiles: self.tiles@.map_values(|t: Tile| t@),
            cx: self.position[0] as int,
            cy: self.position[1] as int,
            size: self.size as int,
        }
    }
}

impl TileManagerV {
    /// At most one tile occupies a given cell, and every cell lies inside the
    /// world's tile bounds.
    pub open spec fn wf(self) -> bool {
        &&& forall|i: int, j: int|
            #![auto]
            0 <= i < j < self.tiles.len() ==> !(self.tiles[i].x == self.tiles[j].x
                && self.tiles[i].y == self.tiles[j].y && self.tiles[i].z == self.tiles[j].z)
        &&& forall|i: int|
            0 <= i < self.tiles.len() ==> -TILE_LIMIT <= (#[trigger] self.tiles[i]).x <= TILE_LIMIT
                && -TILE_LIMIT <= self.tiles[i].y <= TILE_LIMIT && -TILE_LIMIT <= self.tiles[i].z
                <= TILE_LIMIT
    }

    /// The terrain holds exactly the grid generated from the given heights.
    pub open spec fn is_grid_of(self, cx: int, cy: int, size: int, heights: Seq<i64>) -> bool {
        &&& self.cx == cx
        &&& self.cy == cy
        &&& self.size == size
        &&& self.tiles.len() == grid_cell_count(size)
        &&& forall|i: int|
            0 <= i < grid_cell_count(size) ==> self.tiles[i] == grid_tile(
                cx,
                cy,
                size,
                heights[i] as int,
                i,
            )
    }
}

/// Distinct indices of a grid denote distinct columns.
proof fn lemma_grid_tile_injective(cx: int, cy: int, size: int, i: int, j: int)
    requires
        0 <= size,
        0 <= i < grid_cell_count(size),
        0 <= j < grid_cell_count(size),
        i != j,
    ensures
        grid_tile(cx, cy, size, 0, i).x != grid_tile(cx, cy, size, 0, j).x || grid_tile(
            cx,
            cy,
            size,
            0,
            j,
        ).y != grid_tile(cx, cy, size, 0, i).y,
{
    let w = grid_width(size);
    lemma_fundamental_div_mod(i, w);
    lemma_fundamental_div_mod(j, w);
}

/// A terrain that is exactly a generated grid occupies each cell at most
/// once, and, when its center and heights are in bounds, every cell is too.
proof fn lemma_grid_is_wf(v: TileManagerV, cx: int, cy: int, size: int, heights: Seq<i64>)
    requires
        0 <= size,
        v.is_grid_of(cx, cy, size, heights),
        center_in_bounds(cx, cy, size),
        forall|i: int| 0 <= i < heights.len() ==> -TILE_LIMIT <= #[trigger] heights[i] <= TILE_LIMIT,
        heights.len() == grid_cell_count(size),
    ensures
        v.wf(),
{
    assert forall|a: int, b: int| 0 <= a < b < v.tiles.len() implies !(v.tiles[a].x == v.tiles[b].x
        && v.tiles[a].y == v.tiles[b].y && v.tiles[a].z == v.tiles[b].z) by {
        assert(v.tiles[a] == grid_tile(cx, cy, size, heights[a] as int, a));
        assert(v.tiles[b] == grid_tile(cx, cy, size, heights[b] as int, b));
        lemma_grid_tile_injective(cx, cy, size, a, b);
    }
    assert forall|i: int| 0 <= i < v.tiles.len() implies -TILE_LIMIT <= (
    #[trigger] v.tiles[i]).x <= TILE_LIMIT && -TILE_LIMIT <= v.tiles[i].y <= TILE_LIMIT
        && -TILE_LIMIT <= v.tiles[i].z <= TILE_LIMIT by {
        assert(v.tiles[i] == grid_tile(cx, cy, size, heights[i] as int, i));
        let w = grid_width(size);
        lemma_mod_division_less_than_divisor(i, w);
        lemma_fundamental_div_mod(i, w);
        assert(0 <= i / w < w) by (nonlinear_arith)
            requires
                w > 0,
                0 <= i < w * w,
                i == w * (i / w) + i % w,
                0 <= i % w < w,
        ;
    }
}

impl TileManager {
    /// Build the region of the given radius around `position` from one
    /// sampled height per column, row-major from the south-west corner. Every
    /// cell of the grid is occupied by a grass tile at its sampled height.
    pub fn from_heights(position: [i64; 2], size: u8, heights: &Vec<i64>) -> (tm: TileManager)
        requires
            center_in_bounds(position[0] as int, position[1] as int, size as int),
            heights@.len() == grid_cell_count(size as int),
            forall|i: int|
                0 <= i < heights@.len() ==> -TILE_LIMIT <= #[trigger] heights@[i] <= TILE_LIMIT,
        ensures
            tm@.is_grid_of(position[0] as int, position[1] as int, size as int, heights@),
            tm@.wf(),
    {
        let w: usize = 2 * (size as usize) + 1;
        proof {
            assert((w as int) * (w as int) == grid_cell_count(size as int) && (w as int) * (
            w as int) <= 511 * 511) by (nonlinear_arith)
                requires
                    w == 2 * (size as int) + 1,
                    size <= 255,
            ;
        }
        let count: usize = w * w;
        let mut tiles: Vec<Tile> = Vec::new();
        let mut i: usize = 0;
        while i < count
            invariant
                count == grid_cell_count(size as int),
                w == grid_width(size as int),
                heights@.len() == count,
                center_in_bounds(position[0] as int, position[1] as int, size as int),
                i <= count,
                tiles@.len() == i,
                forall|j: int|
                    0 <= j < i ==> tiles@.map_values(|t: Tile| t@)[j] == grid_tile(
                        position[0] as int,
                        position[1] as int,
                        size as int,
                        heights@[j] as int,
                        j,
                    ),
            decreases count - i,
        {
            let dx: usize = i % w;
            let dy: usize = i / w;
            proof {
                lemma_mod_division_less_than_divisor(i as int, w as int);
                assert(dy < w) by (nonlinear_arith)
                    requires
                        w > 0,
                        dy == i as int / w as int,
                        i < count,
                        count == w * w,
                ;
            }
            let x: i64 = position[0] - (size as i64) + (dx as i64);
            let y: i64 = position[1] - (size as i64) + (dy as i64);
            let tile = Tile::new([x, y, heights[i]], TileType::GrassBlock);
            tiles.push(tile);
            proof {
                assert(tiles@.map_values(|t: Tile| t@)[i as int] == tile@);
            }
            i = i + 1;
        }
        let tm = TileManager { tiles, position, size };
        proof {
            lemma_grid_is_wf(tm@, position[0] as int, position[1] as int, size as int, heights@);
        }
        tm
    }

    /// The deterministic fallback when no heights are available: a flat grid
    /// of the same radius, every column at height zero.
    pub fn flat(position: [i64; 2], size: u8) -> (tm: TileManager)
        requires
            center_in_bounds(position[0] as int, position[1] as int, size as int),
        ensures
            tm@.is_grid_of(
                position[0] as int,
                position[1] as int,
                size as int,
                Seq::new(grid_cell_count(size as int) as nat, |i: int| 0i64),
            ),
            tm@.wf(),
    {
        let w: usize = 2 * (size as usize) + 1;
        proof {
            assert((w as int) * (w as int) == grid_cell_count(size as int) && (w as int) * (
            w as int) <= 511 * 511) by (nonlinear_arith)
                requires
                    w == 2 * (size as int) + 1,
                    size <= 255,
            ;
        }
        let count: usize = w * w;
        let mut zeros: Vec<i64> = Vec::new();
        let mut i: usize = 0;
        while i < count
            invariant
                i <= count,
                zeros@.len() == i,
                forall|j: int| 0 <= j < i ==> zeros@[j] == 0i64,
            decreases count - i,
        {
            zeros.push(0);
            i = i + 1;
        }
        let tm = TileManager::from_heights(position, size, &zeros);
        proof {
            assert(zeros@ =~= Seq::new(grid_cell_count(size as int) as nat, |i: int| 0i64));
        }
        tm
    }

    /// Build the region around `position` at the fixed radius the server
    /// uses: from sampled heights when the noise source produced them, or the
    /// flat fallback when it did not.
    pub fn new(position: [i64; 2], heights: Option<Vec<i64>>) -> (tm: TileManager)
        requires
            center_in_bounds(position[0] as int, position[1] as int, TERRAIN_SIZE as int),
            heights matches Some(h) ==> h@.len() == grid_cell_count(TERRAIN_SIZE as int) && (
            forall|i: int|
                0 <= i < h@.len() ==> -TILE_LIMIT <= #[trigger] h@[i] <= TILE_LIMIT),
        ensures
            match heights {
                Some(h) => tm@.is_grid_of(
                    position[0] as int,
                    position[1] as int,
                    TERRAIN_SIZE as int,
                    h@,
                ),
                None => tm@.is_grid_of(
                    position[0] as int,
                    position[1] as int,
                    TERRAIN_SIZE as int,
                    Seq::new(grid_cell_count(TERRAIN_SIZE as int) as nat, |i: int| 0i64),
                ),
            },
            tm@.wf(),
    {
        match heights {
            Some(h) => TileManager::from_heights(position, TERRAIN_SIZE, &h),
            None => TileManager::flat(position, TERRAIN_SIZE),
        }
    }

    /// Whether some tile occupies the cell `(x, y, z)`.
    pub fn has_tile(&self, x: i64, y: i64, z: i64) -> (r: bool)
        ensures
            r == occupies(self@.tiles, x as int, y as int, z as int),
    {
        let n: usize = self.tiles.len();
        let mut i: usize = 0;
        while i < n
            invariant
                n == self.tiles@.len(),
                i <= n,
                forall|j: int|
                    #![auto]
                    0 <= j < i ==> !(self@.tiles[j].x == x as int && self@.tiles[j].y == y as int
                        && self@.tiles[j].z == z as int),
            decreases n - i,
        {
            let t = &self.tiles[i];
            if t.world_position[0] == x && t.world_position[1] == y && t.world_position[2] == z {
                proof {
                    assert(self@.tiles[i as int] == self.tiles@[i as int]@);
                }
                return true;
            }
            i = i + 1;
        }
        false
    }

    /// An independent copy of the whole region, equal to it cell for cell,
    /// for transmission to a newly connecting client.
    pub fn snapshot(&self) -> (r: TileManager)
        ensures
            r@ == self@,
    {
        let tiles: Vec<Tile> = self.tiles.clone();
        proof {
            assert(tiles@ =~= self.tiles@);
        }
        TileManager { tiles, position: self.position, size: self.size }
    }
}

} // verus!
