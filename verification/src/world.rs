//! The authoritative world state: the connected players and the terrain.
//!
//! The world is the single source of truth. Players are created on first
//! connect (idempotently), mutated only through validated movement, and never
//! evicted. The terrain is immutable after construction.

use crate::coords::{
    clamp_add_scaled, clamp_milli, in_bounds, step_target, tile_coord, tile_of, MILLIS_PER_TILE,
    POS_LIMIT,
};
use crate::player::{bytes_eq, Player, PlayerV, DEFAULT_SPEED};
use crate::terrain::{TileManager, TileManagerV};
use crate::tile::{occupies, TileV};
use vstd::pervasive::VecAdditionalExecFns;
use vstd::prelude::*;

verus! {

/// The index of the first player whose id is `id`, if any.
pub open spec fn find_index(ps: Seq<PlayerV>, id: Seq<u8>) -> Option<int>
    decreases ps.len(),
{
    if ps.len() == 0 {
        None
    } else if ps[0].id == id {
        Some(0int)
    } else {
        match find_index(ps.drop_first(), id) {
            Some(j) => Some(j + 1),
            None => None,
        }
    }
}

/// `find_index` returns exactly the first match: `None` means no player
/// carries the id, `Some(i)` means player `i` does and no earlier one does.
pub proof fn lemma_find_index_props(ps: Seq<PlayerV>, id: Seq<u8>)
    ensures
        match find_index(ps, id) {
            None => forall|j: int| 0 <= j < ps.len() ==> #[trigger] ps[j].id != id,
            Some(i) => 0 <= i < ps.len() && ps[i].id == id && (forall|j: int|
                0 <= j < i ==> #[trigger] ps[j].id != id),
        },
    decreases ps.len(),
{
    if ps.len() == 0 {
    } else if ps[0].id == id {
    } else {
        lemma_find_index_props(ps.drop_first(), id);
        assert forall|j: int| 1 <= j < ps.len() implies ps.drop_first()[j - 1] == ps[j] by {}
    }
}

/// The spawn location: the first terrain tile at column `(0, 0)`, if any.
pub open spec fn spawn_tile_index(tiles: Seq<TileV>) -> Option<int>
    decreases tiles.len(),
{
    if tiles.len() == 0 {
        None
    } else if tiles[0].x == 0 && tiles[0].y == 0 {
        Some(0int)
    } else {
        match spawn_tile_index(tiles.drop_first()) {
            Some(j) => Some(j + 1),
            None => None,
        }
    }
}

/// `spawn_tile_index` returns exactly the first tile of column `(0, 0)`.
pub proof fn lemma_spawn_tile_index_props(tiles: Seq<TileV>)
    ensures
        match spawn_tile_index(tiles) {
            None => forall|j: int|
                0 <= j < tiles.len() ==> !(#[trigger] tiles[j].x == 0 && tiles[j].y == 0),
            Some(i) => 0 <= i < tiles.len() && tiles[i].x == 0 && tiles[i].y == 0 && (forall|j: int|
                0 <= j < i ==> !(#[trigger] tiles[j].x == 0 && tiles[j].y == 0)),
        },
    decreases tiles.len(),
{
    if tiles.len() == 0 {
    } else if tiles[0].x == 0 && tiles[0].y == 0 {
    } else {
        lemma_spawn_tile_index_props(tiles.drop_first());
        assert forall|j: int| 1 <= j < tiles.len() implies tiles.drop_first()[j - 1]
            == tiles[j] by {}
    }
}

/// Where a newly created player spawns, in milli-units: on top of the first
/// `(0, 0)` tile of the terrain, or at the origin when that column is empty.
pub open spec fn spawn_z(t: TileManagerV) -> int {
    match spawn_tile_index(t.tiles) {
        Some(i) => t.tiles[i].z * MILLIS_PER_TILE,
        None => 0,
    }
}

/// The record a fresh player starts from.
pub open spec fn spawned_player(t: TileManagerV, id: Seq<u8>) -> PlayerV {
    PlayerV { id, x: 0, y: 0, z: spawn_z(t), speed: DEFAULT_SPEED as int }
}

/// Connect-or-create: an existing player (and unchanged world), or the world
/// extended with a fresh spawn.
pub open spec fn spec_connect(w: WorldV, id: Seq<u8>) -> (WorldV, PlayerV) {
    match find_index(w.players, id) {
        Some(i) => (w, w.players[i]),
        None => {
            let p = spawned_player(w.terrain, id);
            (WorldV { players: w.players.push(p), terrain: w.terrain }, p)
        },
    }
}

/// One validated movement step of a single player.
///
/// The tentative target is `position + direction * speed` on the horizontal
/// axes (saturating at the world bounds, z untouched). The vertical
/// transition rule then decides: a tile one level above the target cell means
/// climb (no horizontal move); otherwise a tile one level below means fall
/// one level (no horizontal move); otherwise the horizontal move commits.
pub open spec fn move_step(p: PlayerV, dx: int, dy: int, tiles: Seq<TileV>) -> PlayerV {
    let nx = step_target(p.x, dx, p.speed);
    let ny = step_target(p.y, dy, p.speed);
    let tx = tile_of(nx);
    let ty = tile_of(ny);
    let tz = tile_of(p.z);
    if occupies(tiles, tx, ty, tz + 1) {
        PlayerV { z: clamp_milli(p.z + MILLIS_PER_TILE), ..p }
    } else if occupies(tiles, tx, ty, tz - 1) {
        PlayerV { z: clamp_milli(p.z - MILLIS_PER_TILE), ..p }
    } else {
        PlayerV { x: nx, y: ny, ..p }
    }
}

/// Apply a movement request: `None` (and an unchanged world) when no player
/// carries the id, otherwise the world with exactly that player stepped.
pub open spec fn spec_move(w: WorldV, id: Seq<u8>, dx: int, dy: int) -> (WorldV, Option<PlayerV>) {
    match find_index(w.players, id) {
        None => (w, None),
        Some(i) => {
            let p2 = move_step(w.players[i], dx, dy, w.terrain.tiles);
            (WorldV { players: w.players.update(i, p2), terrain: w.terrain }, Some(p2))
        },
    }
}

/// Mathematical model of the world.
pub struct WorldV {
    pub players: Seq<PlayerV>,
    pub terrain: TileManagerV,
}

impl WorldV {
    /// Player ids are pairwise distinct, every player is in bounds, and the
    /// terrain is well formed.
    pub open spec fn wf(self) -> bool {
        &&& forall|i: int, j: int|
            #![auto]
            0 <= i < j < self.players.len() ==> self.players[i].id != self.players[j].id
        &&& forall|i: int| 0 <= i < self.players.len() ==> (#[trigger] self.players[i]).wf()
        &&& self.terrain.wf()
    }

    /// Whether some player carries the id.
    pub open spec fn contains_id(self, id: Seq<u8>) -> bool {
        find_index(self.players, id) is Some
    }
}

/// The authoritative store of players and terrain.
pub struct World {
    pub players: Vec<Player>,
    pub terrain: TileManager,
}

impl View for World {
    type V = WorldV;

    open spec fn view(&self) -> WorldV {
        WorldV { players: self.players@.map_values(|p: Player| p@), terrain: self.terrain@ }
    }
}

impl World {
    /// A world with the given terrain and no players yet.
    pub fn new(terrain: TileManager) -> (w: World)
        requires
            terrain@.wf(),
        ensures
            w@.players.len() == 0,
            w@.terrain == terrain@,
            w@.wf(),
    {
        World { players: Vec::new(), terrain }
    }

    /// The terrain, as an independent copy for transmission.
    pub fn snapshot_terrain(&self) -> (r: TileManager)
        ensures
            r@ == self@.terrain,
    {
        self.terrain.snapshot()
    }

    /// Find the position of the player carrying `id` in the player table.
    fn find_player(&self, id: &Vec<u8>) -> (r: Option<usize>)
        ensures
            match r {
                Some(i) => find_index(self@.players, id@) == Some(i as int),
                None => find_index(self@.players, id@) is None,
            },
    {
        let n: usize = self.players.len();
        let mut i: usize = 0;
        while i < n
            invariant
                n == self.players@.len(),
                i <= n,
                forall|j: int| 0 <= j < i ==> #[trigger] self@.players[j].id != id@,
            decreases n - i,
        {
            if bytes_eq(&self.players[i].id, id) {
                proof {
                    assert(self@.players[i as int].id == id@);
                    lemma_find_index_props(self@.players, id@);
                }
                return Some(i);
            }
            i = i + 1;
        }
        proof {
            lemma_find_index_props(self@.players, id@);
        }
        None
    }

    /// Return the existing player carrying `id`, or create one at the
    /// default spawn — the first `(0, 0)` terrain tile, or the origin — with
    /// the default speed. Re-requesting an id never duplicates a record.
    pub fn get_or_create_player(&mut self, id: &Vec<u8>) -> (p: Player)
        requires
            old(self)@.wf(),
        ensures
            final(self)@ == spec_connect(old(self)@, id@).0,
            p@ == spec_connect(old(self)@, id@).1,
            final(self)@.wf(),
    {
        match self.find_player(id) {
            Some(i) => {
                proof {
                    lemma_find_index_props(self@.players, id@);
                }
                self.players[i].snapshot()
            },
            None => {
                let z: i64 = self.spawn_height();
                let fresh = Player {
                    id: id.clone(),
                    position: [0, 0, z],
                    speed: DEFAULT_SPEED,
                };
                proof {
                    assert(fresh.id@ =~= id@);
                    lemma_find_index_props(self@.players, id@);
                }
                let p = fresh.snapshot();
                self.players.push(fresh);
                proof {
                    assert(self@.players =~= old(self)@.players.push(p@));
                    let w2 = spec_connect(old(self)@, id@).0;
                    assert(self@ == w2);
                    assert forall|a: int, b: int|
                        0 <= a < b < self@.players.len() implies self@.players[a].id
                        != self@.players[b].id by {
                        if b == self@.players.len() - 1 {
                            assert(old(self)@.players[a].id != id@);
                        }
                    }
                }
                p
            },
        }
    }

    /// The spawn height in milli-units: the first `(0, 0)` tile's level, or
    /// zero when no such tile exists.
    fn spawn_height(&self) -> (z: i64)
        requires
            self@.terrain.wf(),
        ensures
            z as int == spawn_z(self@.terrain),
            in_bounds(z as int),
    {
        let n: usize = self.terrain.tiles.len();
        let mut i: usize = 0;
        while i < n
            invariant
                n == self.terrain.tiles@.len(),
                i <= n,
                self@.terrain.wf(),
                forall|j: int|
                    0 <= j < i ==> !(#[trigger] self@.terrain.tiles[j].x == 0
                        && self@.terrain.tiles[j].y == 0),
            decreases n - i,
        {
            let t = &self.terrain.tiles[i];
            if t.world_position[0] == 0 && t.world_position[1] == 0 {
                proof {
                    assert(self@.terrain.tiles[i as int] == self.terrain.tiles@[i as int]@);
                    lemma_spawn_tile_index_props(self@.terrain.tiles);
                }
                return t.world_position[2] * MILLIS_PER_TILE;
            }
            i = i + 1;
        }
        proof {
            lemma_spawn_tile_index_props(self@.terrain.tiles);
        }
        0
    }

    /// Apply a validated movement request. Returns `None` — and changes
    /// nothing — when no player carries the id; otherwise steps exactly that
    /// player by the vertical transition rule and returns the updated
    /// snapshot.
    pub fn apply_move(&mut self, id: &Vec<u8>, direction: [i64; 3]) -> (r: Option<Player>)
        requires
            old(self)@.wf(),
        ensures
            final(self)@ == spec_move(
                old(self)@,
                id@,
                direction[0] as int,
                direction[1] as int,
            ).0,
            match r {
                Some(p) => spec_move(old(self)@, id@, direction[0] as int, direction[1] as int).1
                    == Some(p@),
                None => spec_move(old(self)@, id@, direction[0] as int, direction[1] as int).1
                    is None,
            },
            final(self)@.wf(),
    {
        let idx = match self.find_player(id) {
            None => {
                return None;
            },
            Some(i) => i,
        };
        proof {
            lemma_find_index_props(self@.players, id@);
        }
        let p = &self.players[idx];
        let nx: i64 = clamp_add_scaled(p.position[0], direction[0], p.speed);
        let ny: i64 = clamp_add_scaled(p.position[1], direction[1], p.speed);
        let tx: i64 = tile_coord(nx);
        let ty: i64 = tile_coord(ny);
        let tz: i64 = tile_coord(p.position[2]);
        let up = self.terrain.has_tile(tx, ty, tz + 1);
        let down = self.terrain.has_tile(tx, ty, tz - 1);
        let old_pos: [i64; 3] = p.position;
        let new_pos: [i64; 3] = if up {
            [old_pos[0], old_pos[1], clamp_coord(old_pos[2], MILLIS_PER_TILE)]
        } else if down {
            [old_pos[0], old_pos[1], clamp_coord(old_pos[2], -MILLIS_PER_TILE)]
        } else {
            [nx, ny, old_pos[2]]
        };
        let stepped = Player { id: self.players[idx].id.clone(), position: new_pos, speed: p.speed };
        proof {
            assert(stepped.id@ =~= old(self)@.players[idx as int].id);
            assert(stepped@ == move_step(
                old(self)@.players[idx as int],
                direction[0] as int,
                direction[1] as int,
                old(self)@.terrain.tiles,
            ));
        }
        let snap = stepped.snapshot();
        self.players.set(idx, stepped);
        proof {
            assert(self@.players =~= old(self)@.players.update(
                idx as int,
                move_step(
                    old(self)@.players[idx as int],
                    direction[0] as int,
                    direction[1] as int,
                    old(self)@.terrain.tiles,
                ),
            ));
            assert(self@ == spec_move(
                old(self)@,
                id@,
                direction[0] as int,
                direction[1] as int,
            ).0);
        }
        Some(snap)
    }
}

/// Appending a player with an id nobody carries puts it at the end of the
/// search order.
proof fn lemma_find_index_push_new(ps: Seq<PlayerV>, p: PlayerV, id: Seq<u8>)
    requires
        forall|j: int| 0 <= j < ps.len() ==> #[trigger] ps[j].id != id,
        p.id == id,
    ensures
        find_index(ps.push(p), id) == Some(ps.len() as int),
    decreases ps.len(),
{
    if ps.len() == 0 {
        assert(ps.push(p)[0] == p);
    } else {
        assert(ps.push(p)[0] == ps[0]);
        assert(ps.push(p).drop_first() =~= ps.drop_first().push(p));
        assert forall|j: int| 0 <= j < ps.drop_first().len() implies #[trigger] ps.drop_first()[
            j
        ].id != id by {
            assert(ps.drop_first()[j] == ps[j + 1]);
        }
        lemma_find_index_push_new(ps.drop_first(), p, id);
    }
}

/// Idempotent connect: connecting twice with one id returns the identical
/// player record both times and leaves the world exactly as after the first
/// call — in particular, no duplicate entry, and a well-formed world stays
/// well formed.
pub proof fn lemma_connect_idempotent(w: WorldV, id: Seq<u8>)
    ensures
        ({
            let (w1, p1) = spec_connect(w, id);
            let (w2, p2) = spec_connect(w1, id);
            w2 == w1 && p2 == p1 && (w.wf() ==> w1.wf())
        }),
{
    lemma_find_index_props(w.players, id);
    let (w1, p1) = spec_connect(w, id);
    match find_index(w.players, id) {
        Some(i) => {},
        None => {
            lemma_find_index_push_new(w.players, spawned_player(w.terrain, id), id);
            assert(w1.players[w.players.len() as int] == spawned_player(w.terrain, id));
            if w.wf() {
                lemma_spawned_player_wf(w, id);
                assert forall|a: int, b: int|
                    0 <= a < b < w1.players.len() implies #[trigger] w1.players[a].id
                    != #[trigger] w1.players[b].id by {
                    if b < w.players.len() {
                        assert(w.players[a].id != w.players[b].id);
                    } else {
                        assert(w.players[a].id != id);
                    }
                }
                assert(w1.wf());
            }
        },
    }
}

/// A fresh spawn in a well-formed world is a well-formed player: the spawn
/// tile's level lies inside the world bounds.
proof fn lemma_spawned_player_wf(w: WorldV, id: Seq<u8>)
    requires
        w.terrain.wf(),
    ensures
        spawned_player(w.terrain, id).wf(),
{
    lemma_spawn_tile_index_props(w.terrain.tiles);
}

/// Spawn determinism, occupied column: when the terrain holds a tile of
/// column `(0, 0)` at level `h` — and no other level — a player created for
/// an unknown id spawns at `(0, 0, h)` with the default speed.
pub proof fn lemma_spawn_on_tile(w: WorldV, id: Seq<u8>, h: int)
    requires
        !w.contains_id(id),
        occupies(w.terrain.tiles, 0, 0, h),
        forall|j: int|
            0 <= j < w.terrain.tiles.len() ==> ((#[trigger] w.terrain.tiles[j]).x == 0
                && w.terrain.tiles[j].y == 0 ==> w.terrain.tiles[j].z == h),
    ensures
        spec_connect(w, id).1 == (PlayerV {
            id,
            x: 0,
            y: 0,
            z: h * MILLIS_PER_TILE,
            speed: DEFAULT_SPEED as int,
        }),
{
    lemma_spawn_tile_index_props(w.terrain.tiles);
}

/// Spawn determinism, empty column: when no terrain tile sits in column
/// `(0, 0)`, a player created for an unknown id spawns at the origin with the
/// default speed.
pub proof fn lemma_spawn_default(w: WorldV, id: Seq<u8>)
    requires
        !w.contains_id(id),
        forall|j: int|
            0 <= j < w.terrain.tiles.len() ==> !((#[trigger] w.terrain.tiles[j]).x == 0
                && w.terrain.tiles[j].y == 0),
    ensures
        spec_connect(w, id).1 == (PlayerV { id, x: 0, y: 0, z: 0, speed: DEFAULT_SPEED as int }),
{
    lemma_spawn_tile_index_props(w.terrain.tiles);
}

/// Step-up precedence: with a tile one level above the target cell — even if
/// one also lies a level below — the move climbs one tile and leaves `x` and
/// `y` unchanged. Holds whenever the climb stays below the world's upper
/// bound.
pub proof fn lemma_step_up_precedence(p: PlayerV, dx: int, dy: int, tiles: Seq<TileV>)
    requires
        p.wf(),
        p.z + MILLIS_PER_TILE <= POS_LIMIT,
        occupies(
            tiles,
            tile_of(step_target(p.x, dx, p.speed)),
            tile_of(step_target(p.y, dy, p.speed)),
            tile_of(p.z) + 1,
        ),
    ensures
        move_step(p, dx, dy, tiles) == (PlayerV { z: p.z + MILLIS_PER_TILE, ..p }),
{
}

/// Fall transition: with a tile one level below the target cell and none one
/// level above it, the move falls one tile and leaves `x` and `y` unchanged.
/// Holds whenever the fall stays above the world's lower bound.
pub proof fn lemma_fall_transition(p: PlayerV, dx: int, dy: int, tiles: Seq<TileV>)
    requires
        p.wf(),
        -POS_LIMIT <= p.z - MILLIS_PER_TILE,
        !occupies(
            tiles,
            tile_of(step_target(p.x, dx, p.speed)),
            tile_of(step_target(p.y, dy, p.speed)),
            tile_of(p.z) + 1,
        ),
        occupies(
            tiles,
            tile_of(step_target(p.x, dx, p.speed)),
            tile_of(step_target(p.y, dy, p.speed)),
            tile_of(p.z) - 1,
        ),
    ensures
        move_step(p, dx, dy, tiles) == (PlayerV { z: p.z - MILLIS_PER_TILE, ..p }),
{
}

/// Free movement: with no tile one level above or below the target cell, the
/// move commits the tentative `x` and `y` exactly and leaves `z` unchanged;
/// inside the world bounds the tentative value is exactly
/// `position + direction * speed`.
pub proof fn lemma_free_movement(p: PlayerV, dx: int, dy: int, tiles: Seq<TileV>)
    requires
        !occupies(
            tiles,
            tile_of(step_target(p.x, dx, p.speed)),
            tile_of(step_target(p.y, dy, p.speed)),
            tile_of(p.z) + 1,
        ),
        !occupies(
            tiles,
            tile_of(step_target(p.x, dx, p.speed)),
            tile_of(step_target(p.y, dy, p.speed)),
            tile_of(p.z) - 1,
        ),
    ensures
        move_step(p, dx, dy, tiles) == (PlayerV {
            x: step_target(p.x, dx, p.speed),
            y: step_target(p.y, dy, p.speed),
            ..p
        }),
        in_bounds(p.x + dx * p.speed) ==> move_step(p, dx, dy, tiles).x == p.x + dx * p.speed,
        in_bounds(p.y + dy * p.speed) ==> move_step(p, dx, dy, tiles).y == p.y + dy * p.speed,
{
}

/// Add a signed offset to a coordinate, saturating at the world bounds.
fn clamp_coord(v: i64, delta: i64) -> (r: i64)
    ensures
        r == clamp_milli(v as int + delta as int),
        in_bounds(r as int),
{
    let sum: i128 = (v as i128) + (delta as i128);
    if sum < -(POS_LIMIT as i128) {
        -POS_LIMIT
    } else if sum > POS_LIMIT as i128 {
        POS_LIMIT
    } else {
        sum as i64
    }
}

} // verus!
