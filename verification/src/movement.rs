//! Axis-separated collision resolution: a candidate move is tested one axis
//! at a time against the grid, so an entity blocked on one axis still
//! slides along the other.
use vstd::prelude::*;

verus! {

use crate::COORD_LIMIT;
use crate::geometry::Vec2i;
use crate::tile::{Tile, spec_get_tile, get_tile, spec_coord_ok};

/// Whether the horizontal leg of the move is blocked: the probe sits 15
/// units beyond the candidate X in the direction of travel, at the
/// *current* Y.
pub open spec fn spec_blocked_x(pos: Vec2i, new_pos: Vec2i, vel: Vec2i, tiles: Seq<Tile>) -> bool {
    if vel.x <= 0 {
        spec_get_tile(new_pos.x - 15, pos.y as int, tiles)
    } else {
        spec_get_tile(new_pos.x + 15, pos.y as int, tiles)
    }
}

/// Whether the vertical leg of the move is blocked, probed at the current X.
pub open spec fn spec_blocked_y(pos: Vec2i, new_pos: Vec2i, vel: Vec2i, tiles: Seq<Tile>) -> bool {
    if vel.y <= 0 {
        spec_get_tile(pos.x as int, new_pos.y - 15, tiles)
    } else {
        spec_get_tile(pos.x as int, new_pos.y + 15, tiles)
    }
}

/// The resolved position: each axis of the candidate applies independently,
/// reverting to the old coordinate where its probe is blocked.
pub open spec fn spec_resolve_move(
    pos: Vec2i,
    new_pos: Vec2i,
    vel: Vec2i,
    tiles: Seq<Tile>,
) -> Vec2i {
    Vec2i {
        x: if spec_blocked_x(pos, new_pos, vel, tiles) {
            pos.x
        } else {
            new_pos.x
        },
        y: if spec_blocked_y(pos, new_pos, vel, tiles) {
            pos.y
        } else {
            new_pos.y
        },
    }
}

/// Resolves a candidate move against the grid, axis by axis.
///
/// `vel` only carries the direction of travel (its signs choose the probe
/// side). A blocked axis keeps its old coordinate while the other axis
/// still applies, which produces sliding along walls instead of a full stop
/// on diagonal contact.
pub fn resolve_move(pos: Vec2i, new_pos: Vec2i, vel: Vec2i, tiles: &Vec<Tile>) -> (r: Vec2i)
    requires
        spec_coord_ok(pos.x as int, pos.y as int),
        spec_coord_ok(new_pos.x as int, new_pos.y as int),
        -COORD_LIMIT <= new_pos.x - 15 && new_pos.x + 15 <= COORD_LIMIT,
        -COORD_LIMIT <= new_pos.y - 15 && new_pos.y + 15 <= COORD_LIMIT,
    ensures
        r == spec_resolve_move(pos, new_pos, vel, tiles@),
        spec_blocked_x(pos, new_pos, vel, tiles@) ==> r.x == pos.x,
        !spec_blocked_x(pos, new_pos, vel, tiles@) ==> r.x == new_pos.x,
        spec_blocked_y(pos, new_pos, vel, tiles@) ==> r.y == pos.y,
        !spec_blocked_y(pos, new_pos, vel, tiles@) ==> r.y == new_pos.y,
{
    let mut rx = new_pos.x;
    let mut ry = new_pos.y;
    if vel.x <= 0 {
        if get_tile(new_pos.x - 15, pos.y, tiles) {
            rx = pos.x;
        }
    } else {
        if get_tile(new_pos.x + 15, pos.y, tiles) {
            rx = pos.x;
        }
    }
    if vel.y <= 0 {
        if get_tile(pos.x, new_pos.y - 15, tiles) {
            ry = pos.y;
        }
    } else {
        if get_tile(pos.x, new_pos.y + 15, tiles) {
            ry = pos.y;
        }
    }
    Vec2i { x: rx, y: ry }
}

} // verus!
