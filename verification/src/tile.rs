//! The tile grid: tile records, spatial queries with the collision probe
//! offset, and grid snapping for pathfinding.
use vstd::prelude::*;

verus! {

use crate::COORD_LIMIT;
use crate::geometry::{Vec2i, spec_snap, snap_coord};

/// The kind of a tile. Each variant carries an integer payload that current
/// logic ignores but that must survive persistence unchanged.
#[derive(Clone, Copy, PartialEq, Eq, Structural, Debug)]
pub enum TileType {
    Empty(i32),
    Floor(i32),
    Wall(i32),
    PlayerSpawn(i32),
}

/// A rectangle into the shared sprite atlas, in atlas pixels.
#[derive(Clone, Copy, PartialEq, Eq, Structural, Debug)]
pub struct SpriteRect {
    pub x: i32,
    pub y: i32,
    pub w: i32,
    pub h: i32,
}

impl SpriteRect {
    pub fn new(x: i32, y: i32, w: i32, h: i32) -> (r: SpriteRect)
        ensures
            r == (SpriteRect { x, y, w, h }),
    {
        SpriteRect { x, y, w, h }
    }
}

/// One tile of the world: a grid-snapped position, a sprite-atlas source
/// rectangle (meaningful only for renderable kinds), and its kind.
#[derive(Clone, Copy, PartialEq, Eq, Structural, Debug)]
pub struct Tile {
    pub source: SpriteRect,
    pub pos: Vec2i,
    pub tile_type: TileType,
}

pub open spec fn spec_is_wall(t: TileType) -> bool {
    t is Wall
}

pub open spec fn spec_is_spawn(t: TileType) -> bool {
    t is PlayerSpawn
}

impl Tile {
    pub fn new(pos: Vec2i, source: SpriteRect, tile_type: TileType) -> (t: Tile)
        ensures
            t == (Tile { source, pos, tile_type }),
    {
        Tile { source, pos, tile_type }
    }

    /// A fresh `Empty` tile with a zeroed sprite source.
    pub fn empty(pos: Vec2i) -> (t: Tile)
        ensures
            t.pos == pos,
            t.source == (SpriteRect { x: 0, y: 0, w: 0, h: 0 }),
            t.tile_type == TileType::Empty(0),
    {
        Tile { pos, source: SpriteRect { x: 0, y: 0, w: 0, h: 0 }, tile_type: TileType::Empty(0) }
    }

    pub fn source(&self) -> (r: SpriteRect)
        ensures
            r == self.source,
    {
        self.source
    }

    pub fn set_source(&mut self, rect: SpriteRect)
        ensures
            *final(self) == (Tile { source: rect, ..*old(self) }),
    {
        self.source = rect;
    }

    pub fn pos(&self) -> (r: Vec2i)
        ensures
            r == self.pos,
    {
        self.pos
    }

    /// Clears the tile back to `Empty` with a zeroed sprite source.
    pub fn reset(&mut self)
        ensures
            final(self).pos == old(self).pos,
            final(self).tile_type == TileType::Empty(0),
            final(self).source == (SpriteRect { x: 0, y: 0, w: 0, h: 0 }),
    {
        self.tile_type = TileType::Empty(0);
        self.source = SpriteRect { x: 0, y: 0, w: 0, h: 0 };
    }

    pub fn tile_type(&self) -> (r: TileType)
        ensures
            r == self.tile_type,
    {
        self.tile_type
    }

    pub fn set_type(&mut self, tile_type: TileType)
        ensures
            *final(self) == (Tile { tile_type, ..*old(self) }),
    {
        self.tile_type = tile_type;
    }
}

/// All tile positions within the world coordinate range.
pub open spec fn spec_tiles_in_range(tiles: Seq<Tile>) -> bool {
    forall|i: int| 0 <= i < tiles.len() ==> (#[trigger] tiles[i]).pos.spec_in_range()
}

/// Every coordinate a grid query accepts: comfortably inside `i32` (with
/// slack for probe offsets and neighbor steps) so that no query overflows.
pub open spec fn spec_coord_ok(x: int, y: int) -> bool {
    &&& -COORD_LIMIT - 100 <= x <= COORD_LIMIT + 100
    &&& -COORD_LIMIT - 100 <= y <= COORD_LIMIT + 100
}

/// The grid-cell origin probed for collisions at `(x, y)`: each axis is
/// offset by +15 units before snapping, which grants entities clearance
/// before a collision registers.
pub open spec fn spec_probe_cell(x: int, y: int) -> Vec2i {
    Vec2i { x: spec_snap(x + 15) as i32, y: spec_snap(y + 15) as i32 }
}

/// Whether some tile of `tiles` sits at position `p` and is a `Wall`.
pub open spec fn spec_wall_at(tiles: Seq<Tile>, p: Vec2i) -> bool {
    exists|i: int| 0 <= i < tiles.len() && tiles[i].pos == p && spec_is_wall(tiles[i].tile_type)
}

/// Whether the collision probe at `(x, y)` lands on a `Wall` tile. Opaque:
/// most reasoning treats blocking as an abstract predicate and only the
/// query itself looks inside.
#[verifier::opaque]
pub open spec fn spec_get_tile(x: int, y: int, tiles: Seq<Tile>) -> bool {
    spec_wall_at(tiles, spec_probe_cell(x, y))
}

/// True iff the probe-offset grid cell of `(x, y)` holds a `Wall` tile: the
/// core blocking query behind all collision resolution.
pub fn get_tile(x: i32, y: i32, tiles: &Vec<Tile>) -> (r: bool)
    requires
        spec_coord_ok(x as int, y as int),
    ensures
        r == spec_get_tile(x as int, y as int, tiles@),
{
    let px = snap_coord(x + 15);
    let py = snap_coord(y + 15);
    let probe = Vec2i { x: px, y: py };
    let n = tiles.len();
    let mut i: usize = 0;
    while i < n
        invariant
            n == tiles@.len(),
            0 <= i <= n,
            probe == spec_probe_cell(x as int, y as int),
            forall|j: int|
                0 <= j < i ==> !(tiles@[j].pos == probe && spec_is_wall(tiles@[j].tile_type)),
        decreases n - i,
    {
        let t = &tiles[i];
        if t.pos().x == probe.x && t.pos().y == probe.y {
            if let TileType::Wall(_) = t.tile_type() {
                proof {
                    reveal(spec_get_tile);
                }
                return true;
            }
        }
        i = i + 1;
    }
    proof {
        reveal(spec_get_tile);
    }
    false
}

/// On a snapped, nonnegative cell the collision probe stays inside the
/// cell, so blocking coincides with a `Wall` tile at exactly that cell.
pub proof fn lemma_blocked_is_wall_at_cell(c: Vec2i, tiles: Seq<Tile>)
    requires
        crate::geometry::spec_snapped(c),
        c.x >= 0,
        c.y >= 0,
    ensures
        spec_get_tile(c.x as int, c.y as int, tiles) == spec_wall_at(tiles, c),
{
    reveal(spec_get_tile);
    crate::geometry::lemma_probe_nonneg_snapped(c.x as int);
    crate::geometry::lemma_probe_nonneg_snapped(c.y as int);
    assert(spec_probe_cell(c.x as int, c.y as int) == c);
}

/// The cell origin of `(x, y)` for pathfinding: plain division by 32 with no
/// probe offset, distinct from collision snapping.
pub open spec fn spec_calculate_tile_pos(x: int, y: int) -> Vec2i {
    Vec2i { x: spec_snap(x) as i32, y: spec_snap(y) as i32 }
}

pub fn calculate_tile_pos(x: i32, y: i32) -> (r: Vec2i)
    requires
        spec_coord_ok(x as int, y as int),
    ensures
        r == spec_calculate_tile_pos(x as int, y as int),
{
    Vec2i { x: snap_coord(x), y: snap_coord(y) }
}

} // verus!
