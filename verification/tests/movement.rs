use dungeon_core::enemy::Enemy;
use dungeon_core::geometry::{dist_sq, isqrt, scale_toward, step_toward, Vec2i};
use dungeon_core::movement::resolve_move;
use dungeon_core::player::Player;
use dungeon_core::tile::{SpriteRect, Tile, TileType};
use dungeon_core::utility::{create_new_map, sub_image_valid};

fn v(x: i32, y: i32) -> Vec2i {
    Vec2i::new(x, y)
}

fn wall(x: i32, y: i32) -> Tile {
    Tile::new(v(x, y), SpriteRect::new(0, 0, 16, 16), TileType::Wall(2))
}

#[test]
fn axis_separated_slide_along_wall() {
    // a wall directly to the east, open space to the north: moving
    // north-east leaves X unchanged and advances Y
    let tiles = vec![wall(32, 0)];
    let mut p = Player::new(0, 0, 32, 32, 100);
    p.move_player(v(1, -1), 100, &tiles);
    assert_eq!(p.pos().x, 0, "the eastward leg is blocked by the wall");
    assert_eq!(p.pos().y, -7, "the northward leg still applies");
}

#[test]
fn open_diagonal_moves_both_axes() {
    let tiles: Vec<Tile> = Vec::new();
    let mut p = Player::new(0, 0, 32, 32, 100);
    p.move_player(v(1, 1), 100, &tiles);
    // 100 units/s for 100 ms, scaled by 707/1000 on the diagonal
    assert_eq!(p.pos(), v(7, 7));
}

#[test]
fn straight_move_full_speed() {
    let tiles: Vec<Tile> = Vec::new();
    let mut p = Player::new(0, 0, 32, 32, 100);
    p.move_player(v(1, 0), 100, &tiles);
    assert_eq!(p.pos(), v(10, 0));
}

#[test]
fn resolve_move_probes_direction_of_travel() {
    let tiles = vec![wall(-32, 0)];
    // a westward candidate that crosses into the wall's cell is cancelled
    let r = resolve_move(v(0, 0), v(-33, 0), v(-1, 0), &tiles);
    assert_eq!(r, v(0, 0));
    // a westward candidate that stays in its own cell is free
    let r1 = resolve_move(v(0, 0), v(-5, 0), v(-1, 0), &tiles);
    assert_eq!(r1, v(-5, 0));
    // moving east with the wall behind is free
    let r2 = resolve_move(v(0, 0), v(5, 0), v(1, 0), &tiles);
    assert_eq!(r2, v(5, 0));
}

#[test]
fn enemy_chases_target_directly_when_near() {
    let tiles: Vec<Tile> = Vec::new();
    let mut e = Enemy::new(v(0, 0));
    let x0 = e.pos().x;
    // 60 units away: beyond the engagement radius, below the re-plan one
    e.move_to(v(60, 0), 100, &tiles);
    assert!(e.pos().x > x0, "the agent advances toward its target");
    assert_eq!(e.pos().y, 0);
}

#[test]
fn enemy_within_engagement_radius_stands_still() {
    let tiles: Vec<Tile> = Vec::new();
    let mut e = Enemy::new(v(0, 0));
    e.move_to(v(30, 0), 100, &tiles);
    assert_eq!(e.pos(), v(0, 0));
}

#[test]
fn enemy_replans_path_when_far() {
    let tiles: Vec<Tile> = Vec::new();
    let mut e = Enemy::new(v(0, 0));
    e.move_to(v(160, 0), 100, &tiles);
    assert_eq!(e.prev_goal, v(160, 0));
    // the first waypoint becomes the sub-goal; cell steps are 32 units
    assert_eq!(e.move_pos, v(32, 0));
    assert!(e.pos().x > 0);
}

#[test]
fn geometry_helpers() {
    assert_eq!(isqrt(0), 0);
    assert_eq!(isqrt(1), 1);
    assert_eq!(isqrt(35), 5);
    assert_eq!(isqrt(36), 6);
    assert_eq!(dist_sq(v(3, 0), v(0, 4)), 25);
    assert_eq!(scale_toward(v(100, 0), 20), v(20, 0));
    assert_eq!(scale_toward(v(3, 4), 10), v(6, 8));
    assert_eq!(scale_toward(v(0, 0), 10), v(0, 0));
    // an interpolation step truncates but always advances
    assert_eq!(step_toward(v(0, 0), v(100, 0), 1, 10), v(10, 0));
    assert_eq!(step_toward(v(0, 0), v(5, 0), 1, 10), v(1, 0));
    assert_eq!(step_toward(v(5, 5), v(5, 5), 1, 2), v(5, 5));
}

#[test]
fn new_map_layout() {
    let tiles = create_new_map((1, 1), 3, 2);
    assert_eq!(tiles.len(), 6);
    assert_eq!(tiles[0].pos(), v(0, 0));
    assert_eq!(tiles[2].pos(), v(64, 0));
    assert_eq!(tiles[3].pos(), v(0, 32));
    assert!(matches!(tiles[5].tile_type(), TileType::Empty(0)));
}

#[test]
fn atlas_sample_validation() {
    // a 4x4-pixel atlas holds 64 bytes
    let rect = SpriteRect::new(0, 0, 4, 4);
    assert!(sub_image_valid(4, 64, &rect));
    assert!(!sub_image_valid(4, 63, &rect));
    let tall = SpriteRect::new(0, 3, 2, 2);
    assert!(!sub_image_valid(4, 64, &tall), "the bottom row samples past the buffer");
    let empty = SpriteRect::new(9, 9, 0, 5);
    assert!(sub_image_valid(4, 0, &empty), "an empty rectangle samples nothing");
}

#[test]
fn spawn_point_moves_player() {
    let mut tiles = create_new_map((1, 1), 3, 3);
    tiles[4].set_type(TileType::PlayerSpawn(3));
    let mut p = Player::new(0, 0, 32, 32, 100);
    p.spawn_player(&tiles);
    assert_eq!(p.pos(), v(32, 32));
    let plain = create_new_map((1, 1), 2, 2);
    let mut q = Player::new(5, 6, 32, 32, 100);
    q.spawn_player(&plain);
    assert_eq!(q.pos(), v(5, 6), "no spawn tile leaves the position unchanged");
}
