use dungeon_core::geometry::Vec2i;
use dungeon_core::pathfinding::{breadth_first_search, get_neighbors, get_path, is_found_in_vec, Path};
use dungeon_core::tile::{calculate_tile_pos, get_tile, SpriteRect, Tile, TileType};

fn v(x: i32, y: i32) -> Vec2i {
    Vec2i::new(x, y)
}

fn tile(x: i32, y: i32, kind: TileType) -> Tile {
    Tile::new(v(x, y), SpriteRect::new(0, 0, 16, 16), kind)
}

/// A 3x3 floor grid (cells 0, 32, 64 on each axis) with a wall in the
/// center cell.
fn grid_with_center_wall() -> Vec<Tile> {
    let mut tiles = Vec::new();
    for yy in 0..3 {
        for xx in 0..3 {
            let kind = if xx == 1 && yy == 1 {
                TileType::Wall(2)
            } else {
                TileType::Floor(1)
            };
            tiles.push(tile(xx * 32, yy * 32, kind));
        }
    }
    tiles
}

#[test]
fn bfs_is_deterministic() {
    let tiles = grid_with_center_wall();
    let a = breadth_first_search(v(0, 0), v(64, 64), &tiles);
    let b = breadth_first_search(v(0, 0), v(64, 64), &tiles);
    let a = a.expect("path expected");
    let b = b.expect("path expected");
    assert_eq!(a.len(), b.len());
    for (x, y) in a.iter().zip(b.iter()) {
        assert_eq!(x, y);
    }
}

#[test]
fn bfs_routes_around_center_wall() {
    let tiles = grid_with_center_wall();
    let path = breadth_first_search(v(0, 0), v(64, 64), &tiles).expect("path expected");
    let waypoints: Vec<Vec2i> = path.iter().copied().collect();
    // Shortest route: four steps, ending on the goal cell, avoiding the
    // center wall, fixed by the up/down/right/left expansion order.
    assert_eq!(waypoints.len(), 4);
    assert_eq!(*waypoints.last().unwrap(), v(64, 64));
    let mut prev = v(0, 0);
    for w in &waypoints {
        let dx = (w.x - prev.x).abs();
        let dy = (w.y - prev.y).abs();
        assert_eq!(dx + dy, 32, "waypoints must be one grid step apart");
        assert_ne!(*w, v(32, 32), "path must avoid the wall cell");
        prev = *w;
    }
    assert_eq!(waypoints, vec![v(0, 32), v(0, 64), v(32, 64), v(64, 64)]);
}

#[test]
fn bfs_no_waypoint_on_wall() {
    let mut tiles = grid_with_center_wall();
    tiles.push(tile(96, 0, TileType::Wall(2)));
    tiles.push(tile(96, 32, TileType::Wall(2)));
    let path = breadth_first_search(v(0, 0), v(64, 64), &tiles).expect("path expected");
    for w in path.iter() {
        assert!(!get_tile(w.x, w.y, &tiles), "waypoint {w:?} is blocked");
    }
}

#[test]
fn bfs_start_equals_goal_is_empty() {
    let tiles = grid_with_center_wall();
    let path = breadth_first_search(v(5, 5), v(20, 20), &tiles).expect("path expected");
    // both positions snap to cell (0, 0)
    assert_eq!(path.len(), 0);
}

#[test]
fn bfs_wall_goal_is_empty() {
    let tiles = grid_with_center_wall();
    let path = breadth_first_search(v(0, 0), v(32, 32), &tiles).expect("empty path expected");
    assert_eq!(path.len(), 0);
}

#[test]
fn bfs_enclosed_goal_is_no_path() {
    // the goal cell (64, 64) fully ringed by walls
    let mut tiles = Vec::new();
    for yy in 0..5 {
        for xx in 0..5 {
            let on_ring = (1..=3).contains(&xx) && (1..=3).contains(&yy) && !(xx == 2 && yy == 2);
            let kind = if on_ring {
                TileType::Wall(2)
            } else {
                TileType::Floor(1)
            };
            tiles.push(tile(xx * 32, yy * 32, kind));
        }
    }
    let r = breadth_first_search(v(0, 0), v(64, 64), &tiles);
    assert!(r.is_none(), "an enclosed goal must yield an explicit no-path result");
}

#[test]
fn get_neighbors_order_and_walls() {
    let tiles = grid_with_center_wall();
    // neighbors of cell (32, 0): up (off grid, open), down is the center
    // wall, right and left open
    let ns = get_neighbors(v(32, 0), &tiles);
    assert_eq!(ns, vec![v(32, -32), v(64, 0), v(0, 0)]);
}

#[test]
fn parent_table_lookup() {
    let links = vec![
        Path::new(None, v(0, 0)),
        Path::new(Some(v(0, 0)), v(32, 0)),
        Path::new(Some(v(32, 0)), v(64, 0)),
    ];
    assert!(is_found_in_vec(&links, v(32, 0)));
    assert!(!is_found_in_vec(&links, v(96, 0)));
    assert_eq!(get_path(&links, v(64, 0)), Some(v(32, 0)));
    assert_eq!(get_path(&links, v(0, 0)), None);
    assert_eq!(get_path(&links, v(96, 96)), None);
}

#[test]
fn snapping_rules() {
    assert_eq!(calculate_tile_pos(37, 64), v(32, 64));
    assert_eq!(calculate_tile_pos(0, 31), v(0, 0));
    // truncation toward zero on negative coordinates
    assert_eq!(calculate_tile_pos(-17, -33), v(0, -32));
    // the collision probe shifts by +15 before snapping
    let tiles = vec![tile(32, 0, TileType::Wall(2))];
    assert!(get_tile(17, 0, &tiles), "probe 17 + 15 = 32 lands on the wall");
    assert!(!get_tile(16, 0, &tiles), "probe 16 + 15 = 31 stays in cell 0");
}
