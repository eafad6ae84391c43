use tileworld::coords::MILLIS_PER_TILE;
use tileworld::player::DEFAULT_SPEED;
use tileworld::terrain::{TileManager, TERRAIN_SIZE};
use tileworld::tile::{Tile, TileType};
use tileworld::world::World;

fn flat_world() -> World {
    World::new(TileManager::new([0, 0], None))
}

fn empty_terrain() -> TileManager {
    TileManager {
        tiles: Vec::new(),
        position: [0, 0],
        size: 0,
    }
}

fn terrain_with(cells: &[(i64, i64, i64)]) -> TileManager {
    let tiles = cells
        .iter()
        .map(|&(x, y, z)| Tile::new([x, y, z], TileType::GrassBlock))
        .collect();
    TileManager {
        tiles,
        position: [0, 0],
        size: 0,
    }
}

#[test]
fn connect_is_idempotent() {
    let mut world = flat_world();
    let id = b"alice".to_vec();
    let first = world.get_or_create_player(&id);
    let second = world.get_or_create_player(&id);
    assert_eq!(first.id, second.id);
    assert_eq!(first.position, second.position);
    assert_eq!(first.speed, second.speed);
    assert_eq!(world.players.len(), 1);
}

#[test]
fn distinct_ids_create_distinct_players() {
    let mut world = flat_world();
    world.get_or_create_player(&b"alice".to_vec());
    world.get_or_create_player(&b"bob".to_vec());
    assert_eq!(world.players.len(), 2);
}

#[test]
fn spawn_lands_on_origin_tile() {
    let terrain = terrain_with(&[(3, 3, 1), (0, 0, 4)]);
    let mut world = World::new(terrain);
    let p = world.get_or_create_player(&b"alice".to_vec());
    assert_eq!(p.position, [0, 0, 4 * MILLIS_PER_TILE]);
    assert_eq!(p.speed, DEFAULT_SPEED);
}

#[test]
fn spawn_defaults_to_origin_without_tile() {
    let terrain = terrain_with(&[(3, 3, 1), (-1, 0, 2)]);
    let mut world = World::new(terrain);
    let p = world.get_or_create_player(&b"alice".to_vec());
    assert_eq!(p.position, [0, 0, 0]);
    assert_eq!(p.speed, DEFAULT_SPEED);
}

#[test]
fn generated_terrain_spawn_uses_sampled_height() {
    // radius 1 around the origin: nine columns, row-major from (-1, -1);
    // column (0, 0) is the fifth entry.
    let heights = vec![0, 1, 2, 3, 5, 4, 0, 1, 2];
    let terrain = TileManager::from_heights([0, 0], 1, &heights);
    let mut world = World::new(terrain);
    let p = world.get_or_create_player(&b"alice".to_vec());
    assert_eq!(p.position, [0, 0, 5 * MILLIS_PER_TILE]);
}

#[test]
fn step_up_takes_precedence_over_fall() {
    // The player spawns at the origin; one move of direction (+40, 0, 0) at
    // the default speed lands in tile column (1, 0). Tiles exist both one
    // level above and one level below that column: the move must climb.
    let terrain = terrain_with(&[(1, 0, 1), (1, 0, -1)]);
    let mut world = World::new(terrain);
    let id = b"alice".to_vec();
    world.get_or_create_player(&id);
    let p = world.apply_move(&id, [40, 0, 0]).expect("player exists");
    assert_eq!(p.position, [0, 0, MILLIS_PER_TILE]);
}

#[test]
fn fall_happens_without_step_up() {
    let terrain = terrain_with(&[(1, 0, -1)]);
    let mut world = World::new(terrain);
    let id = b"alice".to_vec();
    world.get_or_create_player(&id);
    let p = world.apply_move(&id, [40, 0, 0]).expect("player exists");
    assert_eq!(p.position, [0, 0, -MILLIS_PER_TILE]);
}

#[test]
fn free_movement_commits_tentative_position() {
    let mut world = World::new(empty_terrain());
    let id = b"alice".to_vec();
    world.get_or_create_player(&id);
    let p = world.apply_move(&id, [40, -2, 7]).expect("player exists");
    // x moves by 40 * 25 milli-units, y by -2 * 25; z ignores direction.
    assert_eq!(p.position, [1000, -50, 0]);
}

#[test]
fn unknown_player_move_is_a_no_op() {
    let mut world = flat_world();
    world.get_or_create_player(&b"alice".to_vec());
    let r = world.apply_move(&b"nobody".to_vec(), [1, 0, 0]);
    assert!(r.is_none());
    assert_eq!(world.players.len(), 1);
}

#[test]
fn moves_accumulate_per_player() {
    let mut world = World::new(empty_terrain());
    let id = b"alice".to_vec();
    world.get_or_create_player(&id);
    world.apply_move(&id, [1, 0, 0]).unwrap();
    let p = world.apply_move(&id, [1, 0, 0]).unwrap();
    assert_eq!(p.position, [2 * DEFAULT_SPEED, 0, 0]);
}

#[test]
fn flat_fallback_covers_the_whole_grid_at_height_zero() {
    let tm = TileManager::new([0, 0], None);
    let w = 2 * (TERRAIN_SIZE as usize) + 1;
    assert_eq!(tm.tiles.len(), w * w);
    assert!(tm.has_tile(0, 0, 0));
    assert!(tm.has_tile(-4, -4, 0));
    assert!(tm.has_tile(4, 4, 0));
    assert!(!tm.has_tile(5, 0, 0));
    assert!(!tm.has_tile(0, 0, 1));
}

#[test]
fn generated_terrain_places_each_sampled_height() {
    let mut heights = vec![0i64; 81];
    heights[0] = 3; // column (-4, -4)
    heights[80] = 5; // column (4, 4)
    let tm = TileManager::new([0, 0], Some(heights));
    assert_eq!(tm.tiles.len(), 81);
    assert!(tm.has_tile(-4, -4, 3));
    assert!(tm.has_tile(4, 4, 5));
    assert!(!tm.has_tile(-4, -4, 0));
}

#[test]
fn snapshot_equals_terrain() {
    let tm = TileManager::new([2, -3], None);
    let world = World::new(tm.clone());
    let snap = world.snapshot_terrain();
    assert_eq!(snap, tm);
}
