//! Map generation and sprite-atlas sample validation.
use vstd::prelude::*;

verus! {

use crate::geometry::Vec2i;
use crate::tile::{Tile, TileType, SpriteRect};

/// The tile `create_new_map` places at grid index `(xx, yy)`.
pub open spec fn spec_new_map_tile(padding: (i32, i32), xx: int, yy: int) -> Tile {
    Tile {
        pos: Vec2i { x: (xx * padding.0 * 32) as i32, y: (yy * padding.1 * 32) as i32 },
        source: SpriteRect { x: 0, y: 0, w: 0, h: 0 },
        tile_type: TileType::Empty(0),
    }
}

/// A fresh map: `map_height` rows of `map_width` `Empty` tiles, in row-major
/// order, each 32 (scaled by the padding factors) world units apart.
pub fn create_new_map(padding: (i32, i32), map_width: i32, map_height: i32) -> (r: Vec<Tile>)
    requires
        0 <= map_width <= 1000,
        0 <= map_height <= 1000,
        0 <= padding.0 <= 30,
        0 <= padding.1 <= 30,
    ensures
        r@.len() == map_width * map_height,
        forall|j: int|
            0 <= j < r@.len() ==> #[trigger] r@[j] == spec_new_map_tile(
                padding,
                j % (map_width as int),
                j / (map_width as int),
            ),
{
    let mut tiles: Vec<Tile> = Vec::new();
    let mut y: i32 = 0;
    while y < map_height
        invariant
            0 <= map_width <= 1000,
            0 <= map_height <= 1000,
            0 <= padding.0 <= 30,
            0 <= padding.1 <= 30,
            0 <= y <= map_height,
            tiles@.len() == y * map_width,
            forall|j: int|
                0 <= j < tiles@.len() ==> #[trigger] tiles@[j] == spec_new_map_tile(
                    padding,
                    j % (map_width as int),
                    j / (map_width as int),
                ),
        decreases map_height - y,
    {
        let mut x: i32 = 0;
        proof {
            assert((y + 1) * map_width == y * map_width + map_width) by (nonlinear_arith);
        }
        while x < map_width
            invariant
                0 <= map_width <= 1000,
                0 <= map_height <= 1000,
                0 <= padding.0 <= 30,
                0 <= padding.1 <= 30,
                0 <= y < map_height,
                0 <= x <= map_width,
                tiles@.len() == y * map_width + x,
                forall|j: int|
                    0 <= j < tiles@.len() ==> #[trigger] tiles@[j] == spec_new_map_tile(
                        padding,
                        j % (map_width as int),
                        j / (map_width as int),
                    ),
            decreases map_width - x,
        {
            proof {
                assert(0 <= x * padding.0 * 32 <= 960000) by (nonlinear_arith)
                    requires
                        0 <= x <= 1000,
                        0 <= padding.0 <= 30,
                ;
                assert(0 <= y * padding.1 * 32 <= 960000) by (nonlinear_arith)
                    requires
                        0 <= y <= 1000,
                        0 <= padding.1 <= 30,
                ;
                assert(0 <= y * map_width + x <= 1001000) by (nonlinear_arith)
                    requires
                        0 <= y <= 1000,
                        0 <= map_width <= 1000,
                        0 <= x <= map_width,
                ;
            }
            let px: i32 = x * padding.0 * 32;
            let py: i32 = y * padding.1 * 32;
            tiles.push(Tile::new(
                Vec2i { x: px, y: py },
                SpriteRect { x: 0, y: 0, w: 0, h: 0 },
                TileType::Empty(0),
            ));
            proof {
                let j = tiles@.len() - 1;
                vstd::arithmetic::div_mod::lemma_fundamental_div_mod_converse(
                    j,
                    map_width as int,
                    y as int,
                    x as int,
                );
                assert(tiles@[j] == spec_new_map_tile(
                    padding,
                    j % (map_width as int),
                    j / (map_width as int),
                ));
            }
            x = x + 1;
        }
        y = y + 1;
    }
    tiles
}

/// Whether the atlas sample at `(yy, xx)` has all four of its channel byte
/// offsets inside a buffer of `len` bytes.
pub open spec fn spec_sample_in_bounds(yy: int, xx: int, texture_width: int, len: int) -> bool {
    (yy * texture_width + xx) * 4 + 3 < len
}

/// Validates a sample rectangle against the atlas buffer: true iff every
/// byte offset the sample would read lies inside the buffer. An invalid
/// sample is a soft failure for the caller (skip the draw), never fatal.
pub fn sub_image_valid(texture_width: usize, buffer_len: usize, rect: &SpriteRect) -> (r: bool)
    requires
        texture_width <= 100000,
        0 <= rect.x <= 100000,
        0 <= rect.y <= 100000,
        0 <= rect.w <= 100000,
        0 <= rect.h <= 100000,
    ensures
        r == (rect.w == 0 || rect.h == 0 || spec_sample_in_bounds(
            rect.y + rect.h - 1,
            rect.x + rect.w - 1,
            texture_width as int,
            buffer_len as int,
        )),
        r ==> forall|yy: int, xx: int|
            rect.y <= yy < rect.y + rect.h && rect.x <= xx < rect.x + rect.w
                ==> spec_sample_in_bounds(yy, xx, texture_width as int, buffer_len as int),
{
    if rect.w == 0 || rect.h == 0 {
        return true;
    }
    let ymax: u64 = (rect.y + rect.h - 1) as u64;
    let xmax: u64 = (rect.x + rect.w - 1) as u64;
    proof {
        assert(ymax * texture_width as u64 <= 200000u64 * 100000u64) by (nonlinear_arith)
            requires
                0 <= ymax <= 200000,
                0 <= texture_width <= 100000,
        ;
    }
    let max_offset: u64 = (ymax * texture_width as u64 + xmax) * 4 + 3;
    let ok = max_offset < buffer_len as u64;
    proof {
        if ok {
            assert forall|yy: int, xx: int|
                rect.y <= yy < rect.y + rect.h && rect.x <= xx
                    < rect.x + rect.w implies spec_sample_in_bounds(
                yy,
                xx,
                texture_width as int,
                buffer_len as int,
            ) by {
                assert((yy * texture_width + xx) * 4 + 3 <= (ymax * texture_width + xmax) * 4 + 3)
                    by (nonlinear_arith)
                    requires
                        0 <= yy <= ymax,
                        0 <= xx <= xmax,
                        texture_width >= 0,
                ;
            }
        }
    }
    ok
}

} // verus!
