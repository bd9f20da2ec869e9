use dungeon_core::geometry::Vec2i;
use dungeon_core::serialization::{tiles_from_json, tiles_to_json, LoadError};
use dungeon_core::tile::{SpriteRect, Tile, TileType};

fn v(x: i32, y: i32) -> Vec2i {
    Vec2i::new(x, y)
}

fn sample_tiles() -> Vec<Tile> {
    vec![
        Tile::new(v(20, 20), SpriteRect::new(0, 0, 16, 16), TileType::Floor(1)),
        Tile::new(v(32, 0), SpriteRect::new(16, 32, 16, 16), TileType::Wall(2)),
        Tile::new(v(-64, 96), SpriteRect::new(0, 0, 0, 0), TileType::Empty(0)),
        Tile::new(v(64, 64), SpriteRect::new(48, 0, 16, 16), TileType::PlayerSpawn(3)),
        Tile::new(v(0, 0), SpriteRect::new(0, 0, 16, 16), TileType::Floor(-7)),
    ]
}

#[test]
fn round_trip_reproduces_every_tile() {
    let tiles = sample_tiles();
    let bytes = tiles_to_json(&tiles);
    let back = tiles_from_json(&bytes).expect("the emitted map must load");
    assert_eq!(back.len(), tiles.len());
    for (a, b) in tiles.iter().zip(back.iter()) {
        assert_eq!(a.pos(), b.pos());
        assert_eq!(a.source(), b.source());
        assert_eq!(a.tile_type(), b.tile_type());
    }
}

#[test]
fn round_trip_of_empty_map() {
    let tiles: Vec<Tile> = Vec::new();
    let bytes = tiles_to_json(&tiles);
    assert_eq!(bytes, b"[]".to_vec());
    let back = tiles_from_json(&bytes).expect("an empty list must load");
    assert!(back.is_empty());
}

#[test]
fn emitted_text_is_the_documented_schema() {
    let tiles = vec![Tile::new(v(20, 20), SpriteRect::new(0, 32, 16, 16), TileType::Floor(1))];
    let bytes = tiles_to_json(&tiles);
    let text = String::from_utf8(bytes).expect("the map format is ASCII");
    let expected = "[\n  {\"pos\":{\"x\":20.0,\"y\":20.0},\"source\":{\"x\":0.0,\"y\":32.0,\"w\":16.0,\"h\":16.0},\"tile_type\":{\"Floor\":1}}\n]";
    assert_eq!(text, expected);
}

#[test]
fn emitted_text_is_valid_json_for_serde() {
    let tiles = sample_tiles();
    let bytes = tiles_to_json(&tiles);
    let value: serde_json::Value =
        serde_json::from_slice(&bytes).expect("the emitted map must be well-formed JSON");
    let records = value.as_array().expect("a list of records");
    assert_eq!(records.len(), tiles.len());
    let first = &records[0];
    assert_eq!(first["pos"]["x"].as_f64(), Some(20.0));
    assert_eq!(first["pos"]["y"].as_f64(), Some(20.0));
    assert_eq!(first["source"]["w"].as_f64(), Some(16.0));
    assert_eq!(first["tile_type"]["Floor"].as_i64(), Some(1));
    assert_eq!(records[3]["tile_type"]["PlayerSpawn"].as_i64(), Some(3));
}

#[test]
fn loader_accepts_other_whitespace_layouts() {
    let pretty = b"[\n  {\n    \"pos\": { \"x\": 32.0, \"y\": 0.0 },\n    \"source\": { \"x\": 0.0, \"y\": 0.0, \"w\": 0.0, \"h\": 0.0 },\n    \"tile_type\": { \"Wall\": 2 }\n  }\n]\n".to_vec();
    let tiles = tiles_from_json(&pretty).expect("differently laid out text of the schema loads");
    assert_eq!(tiles.len(), 1);
    assert_eq!(tiles[0].pos(), v(32, 0));
    assert!(matches!(tiles[0].tile_type(), TileType::Wall(2)));
}

#[test]
fn malformed_text_is_a_syntax_error() {
    assert_eq!(tiles_from_json(&b"".to_vec()), Err(LoadError::Syntax));
    assert_eq!(tiles_from_json(&b"[oops]".to_vec()), Err(LoadError::Syntax));
    assert_eq!(tiles_from_json(&b"[{\"pos\":".to_vec()), Err(LoadError::Syntax));
    let trailing = b"[] extra".to_vec();
    assert_eq!(tiles_from_json(&trailing), Err(LoadError::Syntax));
}

#[test]
fn unrepresentable_values_are_data_errors() {
    let unknown_kind = b"[{\"pos\":{\"x\":0.0,\"y\":0.0},\"source\":{\"x\":0.0,\"y\":0.0,\"w\":0.0,\"h\":0.0},\"tile_type\":{\"Lava\":1}}]".to_vec();
    assert_eq!(tiles_from_json(&unknown_kind), Err(LoadError::Data));
    let huge = b"[{\"pos\":{\"x\":99999999999.0,\"y\":0.0},\"source\":{\"x\":0.0,\"y\":0.0,\"w\":0.0,\"h\":0.0},\"tile_type\":{\"Floor\":1}}]".to_vec();
    assert_eq!(tiles_from_json(&huge), Err(LoadError::Data));
    let lossy = b"[{\"pos\":{\"x\":1.5,\"y\":0.0},\"source\":{\"x\":0.0,\"y\":0.0,\"w\":0.0,\"h\":0.0},\"tile_type\":{\"Floor\":1}}]".to_vec();
    assert_eq!(tiles_from_json(&lossy), Err(LoadError::Data));
}

#[test]
fn tile_editing_round_trips_through_persistence() {
    let mut t = Tile::empty(v(0, 0));
    t.set_type(TileType::Wall(2));
    t.set_source(SpriteRect::new(16, 16, 16, 16));
    let bytes = tiles_to_json(&vec![t]);
    let back = tiles_from_json(&bytes).unwrap();
    assert!(matches!(back[0].tile_type(), TileType::Wall(2)));
    assert_eq!(back[0].source(), SpriteRect::new(16, 16, 16, 16));
    let mut u = back[0];
    u.reset();
    assert!(matches!(u.tile_type(), TileType::Empty(0)));
    assert_eq!(u.source(), SpriteRect::new(0, 0, 0, 0));
    assert_eq!(u.pos(), v(0, 0));
}
