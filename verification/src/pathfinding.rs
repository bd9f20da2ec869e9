//! Breadth-first pathfinding over the tile grid.
//!
//! The search snaps its endpoints to grid cells, expands a strict FIFO
//! frontier with the fixed neighbor order up, down, right, left, records for
//! every discovered cell which cell discovered it, and reconstructs the
//! waypoint sequence (start excluded, goal included) by walking the parent
//! table backward. An unreachable goal yields an explicit `None`, never a
//! partial sequence. The whole computation is mirrored by spec functions, so
//! the result is a function of `(start, goal, grid)` alone.
use vstd::prelude::*;

verus! {

use std::collections::VecDeque;

use crate::COORD_LIMIT;
use crate::geometry::{Vec2i, lemma_snap_idempotent, lemma_snap_shift, spec_snapped};
use crate::tile::{Tile, spec_get_tile, get_tile, spec_calculate_tile_pos, calculate_tile_pos, spec_tiles_in_range};

/// One link of the search's parent table: cell `b` was first discovered from
/// cell `a` (`None` for the start cell).
#[derive(Clone, Copy, PartialEq, Eq, Structural, Debug)]
pub struct Path {
    pub a: Option<Vec2i>,
    pub b: Vec2i,
}

impl Path {
    pub fn new(a: Option<Vec2i>, b: Vec2i) -> (p: Path)
        ensures
            p == (Path { a, b }),
    {
        Path { a, b }
    }
}

/// Whether some link records cell `c` as discovered.
pub open spec fn spec_found(links: Seq<Path>, c: Vec2i) -> bool {
    exists|i: int| 0 <= i < links.len() && links[i].b == c
}

/// The parent recorded by the first link for cell `c`, flattened: `None`
/// both when `c` has no link and when its link has no parent (the start).
pub open spec fn spec_get_path(links: Seq<Path>, c: Vec2i) -> Option<Vec2i>
    decreases links.len(),
{
    if links.len() == 0 {
        None
    } else if links[0].b == c {
        links[0].a
    } else {
        spec_get_path(links.drop_first(), c)
    }
}

/// Linear scan for the parent of `b` in the table, as recorded by the first
/// matching link.
pub fn get_path(vector: &Vec<Path>, b: Vec2i) -> (r: Option<Vec2i>)
    ensures
        r == spec_get_path(vector@, b),
{
    let n = vector.len();
    let mut i: usize = 0;
    proof {
        assert(vector@.skip(0) =~= vector@);
    }
    while i < n
        invariant
            n == vector@.len(),
            0 <= i <= n,
            spec_get_path(vector@, b) == spec_get_path(vector@.skip(i as int), b),
        decreases n - i,
    {
        proof {
            assert(vector@.skip(i as int).len() == n - i);
            assert(vector@.skip(i as int)[0] == vector@[i as int]);
            assert(vector@.skip(i as int).drop_first() =~= vector@.skip(i as int + 1));
        }
        let v = &vector[i];
        if v.b == b {
            return v.a;
        }
        i = i + 1;
    }
    proof {
        assert(vector@.skip(n as int).len() == 0);
    }
    None
}

/// Whether the table already holds a link for `element`.
pub fn is_found_in_vec(vector: &Vec<Path>, element: Vec2i) -> (r: bool)
    ensures
        r == spec_found(vector@, element),
{
    let n = vector.len();
    let mut i: usize = 0;
    while i < n
        invariant
            n == vector@.len(),
            0 <= i <= n,
            forall|j: int| 0 <= j < i ==> vector@[j].b != element,
        decreases n - i,
    {
        let v = &vector[i];
        if v.b == element {
            return true;
        }
        i = i + 1;
    }
    false
}

/// The walkable neighbor cells of `tile`, in the fixed expansion order up,
/// down, right, left; this order is the tie-break between equally short
/// paths and must not change.
pub open spec fn spec_neighbors(tile: Vec2i, tiles: Seq<Tile>) -> Seq<Vec2i> {
    let up_blocked = spec_get_tile(tile.x as int, tile.y - 32, tiles);
    let down_blocked = spec_get_tile(tile.x as int, tile.y + 32, tiles);
    let right_blocked = spec_get_tile(tile.x + 32, tile.y as int, tiles);
    let left_blocked = spec_get_tile(tile.x - 32, tile.y as int, tiles);
    (if !up_blocked {
        seq![spec_calculate_tile_pos(tile.x as int, tile.y - 32)]
    } else {
        Seq::<Vec2i>::empty()
    }) + (if !down_blocked {
        seq![spec_calculate_tile_pos(tile.x as int, tile.y + 32)]
    } else {
        Seq::<Vec2i>::empty()
    }) + (if !right_blocked {
        seq![spec_calculate_tile_pos(tile.x + 32, tile.y as int)]
    } else {
        Seq::<Vec2i>::empty()
    }) + (if !left_blocked {
        seq![spec_calculate_tile_pos(tile.x - 32, tile.y as int)]
    } else {
        Seq::<Vec2i>::empty()
    })
}

/// The walkable neighbors of a cell, up, down, right then left.
pub fn get_neighbors(tile: Vec2i, tiles: &Vec<Tile>) -> (r: Vec<Vec2i>)
    requires
        -COORD_LIMIT - 50 <= tile.x <= COORD_LIMIT + 50,
        -COORD_LIMIT - 50 <= tile.y <= COORD_LIMIT + 50,
    ensures
        r@ == spec_neighbors(tile, tiles@),
{
    let mut neighbors: Vec<Vec2i> = Vec::new();
    let up = get_tile(tile.x, tile.y - 32, tiles);
    let down = get_tile(tile.x, tile.y + 32, tiles);
    let right = get_tile(tile.x + 32, tile.y, tiles);
    let left = get_tile(tile.x - 32, tile.y, tiles);

    if !up {
        neighbors.push(calculate_tile_pos(tile.x, tile.y - 32));
    }
    if !down {
        neighbors.push(calculate_tile_pos(tile.x, tile.y + 32));
    }
    if !right {
        neighbors.push(calculate_tile_pos(tile.x + 32, tile.y));
    }
    if !left {
        neighbors.push(calculate_tile_pos(tile.x - 32, tile.y));
    }
    proof {
        assert(neighbors@ =~= spec_neighbors(tile, tiles@));
    }
    neighbors
}

/// The rectangle of cells the search is confined to: the bounding box of
/// every tile plus the two endpoints, widened by one cell on each side so
/// that routes may hug the outside of the map.
#[derive(Clone, Copy, PartialEq, Eq, Structural, Debug)]
pub struct SearchBox {
    pub min_x: i32,
    pub min_y: i32,
    pub max_x: i32,
    pub max_y: i32,
}

pub open spec fn spec_in_box(b: SearchBox, c: Vec2i) -> bool {
    b.min_x <= c.x <= b.max_x && b.min_y <= c.y <= b.max_y
}

pub open spec fn spec_box_extend(b: SearchBox, p: Vec2i) -> SearchBox {
    SearchBox {
        min_x: if p.x < b.min_x {
            p.x
        } else {
            b.min_x
        },
        min_y: if p.y < b.min_y {
            p.y
        } else {
            b.min_y
        },
        max_x: if p.x > b.max_x {
            p.x
        } else {
            b.max_x
        },
        max_y: if p.y > b.max_y {
            p.y
        } else {
            b.max_y
        },
    }
}

pub open spec fn spec_box_init(start: Vec2i, goal: Vec2i) -> SearchBox {
    spec_box_extend(
        SearchBox { min_x: start.x, min_y: start.y, max_x: start.x, max_y: start.y },
        goal,
    )
}

pub open spec fn spec_box_core(tiles: Seq<Tile>, i: int, b: SearchBox) -> SearchBox
    decreases i,
{
    if i <= 0 {
        b
    } else {
        spec_box_extend(spec_box_core(tiles, i - 1, b), tiles[i - 1].pos)
    }
}

pub open spec fn spec_search_box(tiles: Seq<Tile>, start: Vec2i, goal: Vec2i) -> SearchBox {
    let core = spec_box_core(tiles, tiles.len() as int, spec_box_init(start, goal));
    SearchBox {
        min_x: (core.min_x - 32) as i32,
        min_y: (core.min_y - 32) as i32,
        max_x: (core.max_x + 32) as i32,
        max_y: (core.max_y + 32) as i32,
    }
}

/// Computes the search box of a grid and two endpoints.
fn compute_search_box(tiles: &Vec<Tile>, start: Vec2i, goal: Vec2i) -> (b: SearchBox)
    requires
        start.spec_in_range(),
        goal.spec_in_range(),
        spec_tiles_in_range(tiles@),
    ensures
        b == spec_search_box(tiles@, start, goal),
        -COORD_LIMIT - 32 <= b.min_x <= b.max_x <= COORD_LIMIT + 32,
        -COORD_LIMIT - 32 <= b.min_y <= b.max_y <= COORD_LIMIT + 32,
        spec_in_box(b, start),
        spec_in_box(b, goal),
{
    let mut cur = SearchBox { min_x: start.x, min_y: start.y, max_x: start.x, max_y: start.y };
    cur = SearchBox {
        min_x: if goal.x < cur.min_x {
            goal.x
        } else {
            cur.min_x
        },
        min_y: if goal.y < cur.min_y {
            goal.y
        } else {
            cur.min_y
        },
        max_x: if goal.x > cur.max_x {
            goal.x
        } else {
            cur.max_x
        },
        max_y: if goal.y > cur.max_y {
            goal.y
        } else {
            cur.max_y
        },
    };
    let n = tiles.len();
    let mut i: usize = 0;
    while i < n
        invariant
            n == tiles@.len(),
            0 <= i <= n,
            start.spec_in_range(),
            goal.spec_in_range(),
            spec_tiles_in_range(tiles@),
            cur == spec_box_core(tiles@, i as int, spec_box_init(start, goal)),
            -COORD_LIMIT <= cur.min_x <= cur.max_x <= COORD_LIMIT,
            -COORD_LIMIT <= cur.min_y <= cur.max_y <= COORD_LIMIT,
            cur.min_x <= start.x <= cur.max_x,
            cur.min_y <= start.y <= cur.max_y,
            cur.min_x <= goal.x <= cur.max_x,
            cur.min_y <= goal.y <= cur.max_y,
        decreases n - i,
    {
        let p = tiles[i].pos();
        cur = SearchBox {
            min_x: if p.x < cur.min_x {
                p.x
            } else {
                cur.min_x
            },
            min_y: if p.y < cur.min_y {
                p.y
            } else {
                cur.min_y
            },
            max_x: if p.x > cur.max_x {
                p.x
            } else {
                cur.max_x
            },
            max_y: if p.y > cur.max_y {
                p.y
            } else {
                cur.max_y
            },
        };
        i = i + 1;
    }
    SearchBox {
        min_x: cur.min_x - 32,
        min_y: cur.min_y - 32,
        max_x: cur.max_x + 32,
        max_y: cur.max_y + 32,
    }
}

/// The search budget: one more than the number of cells the box can hold.
/// Every expansion discovers at least one new in-box cell, so the budget is
/// what bounds the loop.
pub open spec fn spec_fuel(b: SearchBox) -> nat {
    ((((b.max_x - b.min_x) / 32) + 1) * (((b.max_y - b.min_y) / 32) + 1) + 1) as nat
}

fn compute_fuel(b: SearchBox) -> (f: u64)
    requires
        -COORD_LIMIT - 32 <= b.min_x <= b.max_x <= COORD_LIMIT + 32,
        -COORD_LIMIT - 32 <= b.min_y <= b.max_y <= COORD_LIMIT + 32,
    ensures
        f as nat == spec_fuel(b),
        f >= 1,
{
    let w: u64 = ((b.max_x - b.min_x) as u64) / 32 + 1;
    let h: u64 = ((b.max_y - b.min_y) as u64) / 32 + 1;
    proof {
        assert(w * h <= 70000u64 * 70000u64) by (nonlinear_arith)
            requires
                0 < w <= 70000,
                0 < h <= 70000,
        ;
        assert(w * h >= 1) by (nonlinear_arith)
            requires
                w >= 1,
                h >= 1,
        ;
    }
    w * h + 1
}

/// One frontier expansion: each candidate that lies in the box and is not
/// yet in the parent table is appended to the frontier and recorded as
/// discovered from `cur`; candidates are admitted in their given order.
pub open spec fn spec_expand(cands: Seq<Vec2i>, links: Seq<Path>, cur: Vec2i, b: SearchBox) -> (
    Seq<Vec2i>,
    Seq<Path>,
)
    decreases cands.len(),
{
    if cands.len() == 0 {
        (Seq::<Vec2i>::empty(), links)
    } else {
        let c = cands[0];
        if spec_in_box(b, c) && !spec_found(links, c) {
            let rest = spec_expand(
                cands.drop_first(),
                links.push(Path { a: Some(cur), b: c }),
                cur,
                b,
            );
            (seq![c] + rest.0, rest.1)
        } else {
            spec_expand(cands.drop_first(), links, cur, b)
        }
    }
}

/// The search loop: pop the frontier's front cell in strict FIFO order,
/// stop once the goal is popped (or the budget or frontier runs out), and
/// otherwise expand its neighbors. Returns the finished parent table.
pub open spec fn spec_bfs_loop(
    fuel: nat,
    frontier: Seq<Vec2i>,
    links: Seq<Path>,
    goal: Vec2i,
    tiles: Seq<Tile>,
    b: SearchBox,
) -> Seq<Path>
    decreases fuel,
{
    if fuel == 0 || frontier.len() == 0 {
        links
    } else {
        let cur = frontier[0];
        if cur == goal {
            links
        } else {
            let e = spec_expand(spec_neighbors(cur, tiles), links, cur, b);
            spec_bfs_loop((fuel - 1) as nat, frontier.drop_first() + e.0, e.1, goal, tiles, b)
        }
    }
}

/// Walks the parent table backward from `cur` to `start`, yielding the
/// forward waypoint sequence; `None` when a cell on the way has no parent
/// entry or the walk does not reach `start` within `fuel` steps.
pub open spec fn spec_walk(links: Seq<Path>, cur: Vec2i, start: Vec2i, fuel: nat) -> Option<
    Seq<Vec2i>,
>
    decreases fuel,
{
    if cur == start {
        Some(Seq::<Vec2i>::empty())
    } else if fuel == 0 {
        None
    } else {
        match spec_get_path(links, cur) {
            Some(p) => match spec_walk(links, p, start, (fuel - 1) as nat) {
                Some(s) => Some(s.push(cur)),
                None => None,
            },
            None => None,
        }
    }
}

/// What `breadth_first_search` returns, as a function of its inputs alone.
pub open spec fn spec_bfs(start_pos: Vec2i, goal: Vec2i, tiles: Seq<Tile>) -> Option<Seq<Vec2i>> {
    let start = spec_calculate_tile_pos(start_pos.x as int, start_pos.y as int);
    let g = spec_calculate_tile_pos(goal.x as int, goal.y as int);
    if spec_get_tile(g.x as int, g.y as int, tiles) {
        Some(Seq::<Vec2i>::empty())
    } else {
        let b = spec_search_box(tiles, start, g);
        let links = spec_bfs_loop(
            spec_fuel(b),
            seq![start],
            seq![Path { a: None, b: start }],
            g,
            tiles,
            b,
        );
        spec_walk(links, g, start, links.len())
    }
}

/// A cell within the coordinate range the search works in.
pub open spec fn spec_cell_ok(c: Vec2i) -> bool {
    &&& -COORD_LIMIT - 50 <= c.x <= COORD_LIMIT + 50
    &&& -COORD_LIMIT - 50 <= c.y <= COORD_LIMIT + 50
}

/// A cell one grid step (after snapping) from `p`, in one of the four
/// expansion directions.
pub open spec fn spec_is_neighbor_cell(p: Vec2i, c: Vec2i) -> bool {
    ||| c == spec_calculate_tile_pos(p.x as int, p.y - 32)
    ||| c == spec_calculate_tile_pos(p.x as int, p.y + 32)
    ||| c == spec_calculate_tile_pos(p.x + 32, p.y as int)
    ||| c == spec_calculate_tile_pos(p.x - 32, p.y as int)
}

/// What every parent-table link guarantees: a discovered cell is not
/// blocking, lies one step from its discoverer, and the discoverer is
/// itself in the table; the start cell alone has no parent.
pub open spec fn spec_link_ok(l: Path, links: Seq<Path>, tiles: Seq<Tile>, start: Vec2i) -> bool {
    match l.a {
        Some(p) => {
            &&& !spec_get_tile(l.b.x as int, l.b.y as int, tiles)
            &&& spec_is_neighbor_cell(p, l.b)
            &&& spec_found(links, p)
        },
        None => l.b == start,
    }
}

pub open spec fn spec_links_ok(links: Seq<Path>, tiles: Seq<Tile>, start: Vec2i) -> bool {
    &&& forall|i: int|
        0 <= i < links.len() ==> spec_link_ok(#[trigger] links[i], links, tiles, start)
    &&& forall|i: int|
        0 <= i < links.len() ==> spec_snapped((#[trigger] links[i]).b) && spec_cell_ok(
            links[i].b,
        )
}

proof fn lemma_found_push(links: Seq<Path>, l: Path, c: Vec2i)
    requires
        spec_found(links, c),
    ensures
        spec_found(links.push(l), c),
{
    let i = choose|i: int| 0 <= i < links.len() && links[i].b == c;
    assert(links.push(l)[i].b == c);
}

proof fn lemma_links_ok_push(links: Seq<Path>, l: Path, tiles: Seq<Tile>, start: Vec2i)
    requires
        spec_links_ok(links, tiles, start),
        spec_link_ok(l, links, tiles, start),
        spec_snapped(l.b),
        spec_cell_ok(l.b),
    ensures
        spec_links_ok(links.push(l), tiles, start),
{
    let links2 = links.push(l);
    assert forall|i: int| 0 <= i < links2.len() implies spec_link_ok(
        #[trigger] links2[i],
        links2,
        tiles,
        start,
    ) by {
        if i < links.len() {
            assert(links2[i] == links[i]);
            match links[i].a {
                Some(p) => {
                    lemma_found_push(links, l, p);
                },
                None => {},
            }
        } else {
            assert(links2[i] == l);
            match l.a {
                Some(p) => {
                    lemma_found_push(links, l, p);
                },
                None => {},
            }
        }
    }
    assert forall|i: int| 0 <= i < links2.len() implies spec_snapped((#[trigger] links2[i]).b)
        && spec_cell_ok(links2[i].b) by {
        if i < links.len() {
            assert(links2[i] == links[i]);
        } else {
            assert(links2[i] == l);
        }
    }
}

/// Every cell the neighbor expansion emits is one snapped step from `cur`,
/// is not blocking, and is itself snapped.
proof fn lemma_neighbors_props(cur: Vec2i, tiles: Seq<Tile>, i: int)
    requires
        spec_snapped(cur),
        -COORD_LIMIT - 32 <= cur.x <= COORD_LIMIT + 32,
        -COORD_LIMIT - 32 <= cur.y <= COORD_LIMIT + 32,
        0 <= i < spec_neighbors(cur, tiles).len(),
    ensures
        ({
            let c = spec_neighbors(cur, tiles)[i];
            &&& !spec_get_tile(c.x as int, c.y as int, tiles)
            &&& spec_is_neighbor_cell(cur, c)
            &&& spec_snapped(c)
        }),
{
    lemma_snap_shift(cur.x as int, 1);
    lemma_snap_shift(cur.x as int, -1);
    lemma_snap_shift(cur.y as int, 1);
    lemma_snap_shift(cur.y as int, -1);
    assert(spec_calculate_tile_pos(cur.x as int, cur.y - 32) == Vec2i {
        x: cur.x,
        y: (cur.y - 32) as i32,
    });
    assert(spec_calculate_tile_pos(cur.x as int, cur.y + 32) == Vec2i {
        x: cur.x,
        y: (cur.y + 32) as i32,
    });
    assert(spec_calculate_tile_pos(cur.x + 32, cur.y as int) == Vec2i {
        x: (cur.x + 32) as i32,
        y: cur.y,
    });
    assert(spec_calculate_tile_pos(cur.x - 32, cur.y as int) == Vec2i {
        x: (cur.x - 32) as i32,
        y: cur.y,
    });
}

/// Frontier expansion preserves the parent-table guarantees; every emitted
/// frontier cell is recorded, snapped and inside the box.
#[verifier::rlimit(100)]
proof fn lemma_expand_ok(
    cands: Seq<Vec2i>,
    links: Seq<Path>,
    cur: Vec2i,
    b: SearchBox,
    tiles: Seq<Tile>,
    start: Vec2i,
)
    requires
        spec_links_ok(links, tiles, start),
        spec_found(links, cur),
        forall|j: int|
            0 <= j < cands.len() ==> {
                let c = #[trigger] cands[j];
                &&& !spec_get_tile(c.x as int, c.y as int, tiles)
                &&& spec_is_neighbor_cell(cur, c)
                &&& spec_snapped(c)
            },
        -COORD_LIMIT - 32 <= b.min_x <= b.max_x <= COORD_LIMIT + 32,
        -COORD_LIMIT - 32 <= b.min_y <= b.max_y <= COORD_LIMIT + 32,
    ensures
        ({
            let e = spec_expand(cands, links, cur, b);
            &&& spec_links_ok(e.1, tiles, start)
            &&& forall|k: int|
                0 <= k < e.0.len() ==> spec_found(e.1, #[trigger] e.0[k]) && spec_snapped(e.0[k])
                    && spec_in_box(b, e.0[k])
            &&& forall|c: Vec2i| spec_found(links, c) ==> spec_found(e.1, c)
        }),
    decreases cands.len(),
{
    if cands.len() == 0 {
    } else {
        let c = cands[0];
        assert(cands.drop_first().len() == cands.len() - 1);
        assert(forall|j: int|
            0 <= j < cands.drop_first().len() ==> #[trigger] cands.drop_first()[j] == cands[j + 1]);
        if spec_in_box(b, c) && !spec_found(links, c) {
            let l = Path { a: Some(cur), b: c };
            let links2 = links.push(l);
            assert(spec_cell_ok(c));
            lemma_links_ok_push(links, l, tiles, start);
            lemma_found_push(links, l, cur);
            lemma_expand_ok(cands.drop_first(), links2, cur, b, tiles, start);
            let rest = spec_expand(cands.drop_first(), links2, cur, b);
            let e = spec_expand(cands, links, cur, b);
            assert(e.0 == seq![c] + rest.0 && e.1 == rest.1);
            assert(links2[links.len() as int].b == c);
            assert(spec_found(links2, c));
            assert forall|k: int| 0 <= k < e.0.len() implies spec_found(e.1, #[trigger] e.0[k])
                && spec_snapped(e.0[k]) && spec_in_box(b, e.0[k]) by {
                if k == 0 {
                    assert(e.0[0] == c);
                } else {
                    assert(e.0[k] == rest.0[k - 1]);
                }
            }
            assert forall|cc: Vec2i| spec_found(links, cc) implies spec_found(e.1, cc) by {
                lemma_found_push(links, l, cc);
            }
        } else {
            lemma_expand_ok(cands.drop_first(), links, cur, b, tiles, start);
        }
    }
}

/// The search loop preserves the parent-table guarantees.
proof fn lemma_bfs_loop_ok(
    fuel: nat,
    frontier: Seq<Vec2i>,
    links: Seq<Path>,
    goal: Vec2i,
    tiles: Seq<Tile>,
    b: SearchBox,
    start: Vec2i,
)
    requires
        spec_links_ok(links, tiles, start),
        forall|k: int|
            0 <= k < frontier.len() ==> {
                let c = #[trigger] frontier[k];
                spec_found(links, c) && spec_snapped(c) && spec_in_box(b, c)
            },
        -COORD_LIMIT - 32 <= b.min_x <= b.max_x <= COORD_LIMIT + 32,
        -COORD_LIMIT - 32 <= b.min_y <= b.max_y <= COORD_LIMIT + 32,
    ensures
        spec_links_ok(spec_bfs_loop(fuel, frontier, links, goal, tiles, b), tiles, start),
    decreases fuel,
{
    if fuel == 0 || frontier.len() == 0 {
    } else {
        let cur = frontier[0];
        if cur == goal {
        } else {
            let cands = spec_neighbors(cur, tiles);
            assert forall|j: int| 0 <= j < cands.len() implies {
                let c = #[trigger] cands[j];
                &&& !spec_get_tile(c.x as int, c.y as int, tiles)
                &&& spec_is_neighbor_cell(cur, c)
                &&& spec_snapped(c)
            } by {
                lemma_neighbors_props(cur, tiles, j);
            }
            lemma_expand_ok(cands, links, cur, b, tiles, start);
            let e = spec_expand(cands, links, cur, b);
            let frontier2 = frontier.drop_first() + e.0;
            assert forall|k: int| 0 <= k < frontier2.len() implies {
                let c = #[trigger] frontier2[k];
                spec_found(e.1, c) && spec_snapped(c) && spec_in_box(b, c)
            } by {
                if k < frontier.drop_first().len() {
                    assert(frontier2[k] == frontier.drop_first()[k]);
                    assert(frontier.drop_first()[k] == frontier[k + 1]);
                } else {
                    assert(frontier2[k] == e.0[k - frontier.drop_first().len()]);
                }
            }
            lemma_bfs_loop_ok((fuel - 1) as nat, frontier2, e.1, goal, tiles, b, start);
        }
    }
}

/// If the flattened lookup finds a parent, some link records exactly it.
proof fn lemma_get_path_some(links: Seq<Path>, c: Vec2i, p: Vec2i)
    requires
        spec_get_path(links, c) == Some(p),
    ensures
        exists|i: int| 0 <= i < links.len() && links[i].b == c && links[i].a == Some(p),
    decreases links.len(),
{
    if links.len() == 0 {
    } else if links[0].b == c {
        assert(links[0].b == c && links[0].a == Some(p));
    } else {
        lemma_get_path_some(links.drop_first(), c, p);
        let i = choose|i: int|
            0 <= i < links.drop_first().len() && links.drop_first()[i].b == c
                && links.drop_first()[i].a == Some(p);
        assert(links.drop_first()[i] == links[i + 1]);
        assert(links[i + 1].b == c && links[i + 1].a == Some(p));
    }
}

/// Every successful walk of the parent table yields a sequence of snapped,
/// non-blocking cells that forms a step-by-step chain from `start` (not
/// included) to `cur` (included); the walk yields the empty sequence
/// exactly when `cur` is `start`.
proof fn lemma_walk_sound(links: Seq<Path>, cur: Vec2i, start: Vec2i, fuel: nat, tiles: Seq<Tile>)
    requires
        spec_links_ok(links, tiles, start),
    ensures
        match spec_walk(links, cur, start, fuel) {
            Some(s) => {
                &&& forall|i: int|
                    0 <= i < s.len() ==> !spec_get_tile(
                        (#[trigger] s[i]).x as int,
                        s[i].y as int,
                        tiles,
                    ) && spec_snapped(s[i]) && spec_cell_ok(s[i])
                &&& forall|i: int| 0 < i < s.len() ==> spec_is_neighbor_cell(s[i - 1], #[trigger] s[i])
                &&& s.len() > 0 ==> s[s.len() - 1] == cur && spec_is_neighbor_cell(start, s[0])
                &&& (s.len() == 0) <==> (cur == start)
            },
            None => true,
        },
    decreases fuel,
{
    if cur == start {
    } else if fuel == 0 {
    } else {
        match spec_get_path(links, cur) {
            Some(p) => {
                lemma_get_path_some(links, cur, p);
                let w = choose|i: int|
                    0 <= i < links.len() && links[i].b == cur && links[i].a == Some(p);
                assert(spec_link_ok(links[w], links, tiles, start));
                assert(spec_snapped(links[w].b));
                lemma_walk_sound(links, p, start, (fuel - 1) as nat, tiles);
                match spec_walk(links, p, start, (fuel - 1) as nat) {
                    Some(s) => {
                        let s2 = s.push(cur);
                        assert(spec_walk(links, cur, start, fuel) == Some(s2));
                        assert forall|i: int| 0 < i < s2.len() implies spec_is_neighbor_cell(
                            s2[i - 1],
                            #[trigger] s2[i],
                        ) by {
                            if i < s.len() {
                                assert(s2[i] == s[i] && s2[i - 1] == s[i - 1]);
                            } else {
                                assert(s2[i] == cur);
                                if s.len() > 0 {
                                    assert(s2[i - 1] == s[s.len() - 1]);
                                    assert(s[s.len() - 1] == p);
                                } else {
                                    assert(p == start);
                                }
                            }
                        }
                        if s.len() == 0 {
                            assert(p == start);
                            assert(s2[0] == cur);
                        }
                    },
                    None => {},
                }
            },
            None => {},
        }
    }
}

/// Bounds and monotonicity of the bounding-box fold.
proof fn lemma_box_core_bounds(tiles: Seq<Tile>, i: int, init: SearchBox)
    requires
        spec_tiles_in_range(tiles),
        0 <= i <= tiles.len(),
        -COORD_LIMIT <= init.min_x <= init.max_x <= COORD_LIMIT,
        -COORD_LIMIT <= init.min_y <= init.max_y <= COORD_LIMIT,
    ensures
        ({
            let c = spec_box_core(tiles, i, init);
            &&& -COORD_LIMIT <= c.min_x <= c.max_x <= COORD_LIMIT
            &&& -COORD_LIMIT <= c.min_y <= c.max_y <= COORD_LIMIT
            &&& c.min_x <= init.min_x && init.max_x <= c.max_x
            &&& c.min_y <= init.min_y && init.max_y <= c.max_y
        }),
    decreases i,
{
    if i > 0 {
        lemma_box_core_bounds(tiles, i - 1, init);
    }
}

/// The guarantees of the whole search, stated over its spec mirror.
///
/// Of every returned waypoint sequence: no waypoint lands on a blocking
/// cell; consecutive waypoints are one grid step apart, the first is one
/// step from the start cell and the last is the goal cell; a start that
/// snaps onto the goal, or a goal on a blocking cell, yields the empty
/// sequence; and `None` (no path) arises only in a genuine search, never in
/// the degenerate cases.
pub proof fn lemma_bfs_sound(start_pos: Vec2i, goal: Vec2i, tiles: Seq<Tile>)
    requires
        start_pos.spec_in_range(),
        goal.spec_in_range(),
        spec_tiles_in_range(tiles),
    ensures
        ({
            let s = spec_calculate_tile_pos(start_pos.x as int, start_pos.y as int);
            let g = spec_calculate_tile_pos(goal.x as int, goal.y as int);
            let blocked_goal = spec_get_tile(g.x as int, g.y as int, tiles);
            match spec_bfs(start_pos, goal, tiles) {
                Some(p) => {
                    &&& forall|i: int|
                        0 <= i < p.len() ==> !spec_get_tile(
                            (#[trigger] p[i]).x as int,
                            p[i].y as int,
                            tiles,
                        ) && spec_snapped(p[i]) && spec_cell_ok(p[i])
                    &&& forall|i: int|
                        0 < i < p.len() ==> spec_is_neighbor_cell(p[i - 1], #[trigger] p[i])
                    &&& p.len() > 0 ==> p[p.len() - 1] == g && spec_is_neighbor_cell(s, p[0])
                    &&& s == g ==> p.len() == 0
                    &&& blocked_goal ==> p.len() == 0
                    &&& (!blocked_goal && s != g) ==> p.len() > 0
                },
                None => !blocked_goal && s != g,
            }
        }),
{
    let s = spec_calculate_tile_pos(start_pos.x as int, start_pos.y as int);
    let g = spec_calculate_tile_pos(goal.x as int, goal.y as int);
    let blocked_goal = spec_get_tile(g.x as int, g.y as int, tiles);
    lemma_snap_idempotent(start_pos.x as int);
    lemma_snap_idempotent(start_pos.y as int);
    lemma_snap_idempotent(goal.x as int);
    lemma_snap_idempotent(goal.y as int);
    crate::geometry::lemma_snap_toward_zero(start_pos.x as int);
    crate::geometry::lemma_snap_toward_zero(start_pos.y as int);
    crate::geometry::lemma_snap_toward_zero(goal.x as int);
    crate::geometry::lemma_snap_toward_zero(goal.y as int);
    assert(spec_snapped(s));
    assert(spec_snapped(g));
    assert(spec_cell_ok(s));
    assert(spec_cell_ok(g));
    if !blocked_goal {
        let b = spec_search_box(tiles, s, g);
        let init = spec_box_init(s, g);
        lemma_box_core_bounds(tiles, tiles.len() as int, init);
        let links0 = seq![Path { a: None, b: s }];
        let frontier0 = seq![s];
        assert(spec_links_ok(links0, tiles, s)) by {
            assert(links0[0].a is None && links0[0].b == s);
        }
        assert(spec_found(links0, s)) by {
            assert(links0[0].b == s);
        }
        assert(spec_in_box(b, s));
        lemma_bfs_loop_ok(spec_fuel(b), frontier0, links0, g, tiles, b, s);
        let links = spec_bfs_loop(spec_fuel(b), frontier0, links0, g, tiles, b);
        lemma_walk_sound(links, g, s, links.len(), tiles);
    }
}

/// No waypoint of a returned path coincides with a cell that holds a `Wall`
/// tile (stated for the nonnegative quadrant, where the collision probe
/// stays inside its own cell).
pub proof fn lemma_bfs_no_wall_waypoints(start_pos: Vec2i, goal: Vec2i, tiles: Seq<Tile>)
    requires
        start_pos.spec_in_range(),
        goal.spec_in_range(),
        spec_tiles_in_range(tiles),
    ensures
        match spec_bfs(start_pos, goal, tiles) {
            Some(p) => forall|i: int|
                0 <= i < p.len() && (#[trigger] p[i]).x >= 0 && p[i].y >= 0
                    ==> !crate::tile::spec_wall_at(tiles, p[i]),
            None => true,
        },
{
    lemma_bfs_sound(start_pos, goal, tiles);
    match spec_bfs(start_pos, goal, tiles) {
        Some(p) => {
            assert forall|i: int|
                0 <= i < p.len() && (#[trigger] p[i]).x >= 0 && p[i].y
                    >= 0 implies !crate::tile::spec_wall_at(tiles, p[i]) by {
                crate::tile::lemma_blocked_is_wall_at_cell(p[i], tiles);
            }
        },
        None => {},
    }
}

/// Breadth-first search from `start_pos` to `goal` over the grid.
///
/// Both endpoints are snapped to cells first. A goal on a blocking cell
/// yields `Some` of an empty queue (no route attempted), as does a start
/// that snaps onto the goal. A goal that the search cannot reach from the
/// start yields `None`: the caller falls back to direct movement. Otherwise
/// the queue holds the waypoints from the start cell (excluded) to the goal
/// cell (included), in walking order.
pub fn breadth_first_search(start_pos: Vec2i, goal: Vec2i, tiles: &Vec<Tile>) -> (r: Option<
    VecDeque<Vec2i>,
>)
    requires
        start_pos.spec_in_range(),
        goal.spec_in_range(),
        spec_tiles_in_range(tiles@),
    ensures
        match (r, spec_bfs(start_pos, goal, tiles@)) {
            (Some(q), Some(s)) => q@ == s,
            (None, None) => true,
            _ => false,
        },
{
    let start = calculate_tile_pos(start_pos.x, start_pos.y);
    let g = calculate_tile_pos(goal.x, goal.y);
    if get_tile(g.x, g.y, tiles) {
        let q: VecDeque<Vec2i> = VecDeque::new();
        return Some(q);
    }
    let b = compute_search_box(tiles, start, g);
    let mut fuel: u64 = compute_fuel(b);
    let ghost fuel0: nat = fuel as nat;
    let mut frontier: VecDeque<Vec2i> = VecDeque::new();
    frontier.push_back(start);
    let mut links: Vec<Path> = Vec::new();
    links.push(Path::new(None, start));
    let ghost frontier0: Seq<Vec2i> = frontier@;
    let ghost links0: Seq<Path> = links@;
    proof {
        assert(frontier0 =~= seq![start]);
        assert(links0 =~= seq![Path { a: None, b: start }]);
    }
    let ghost target: Seq<Path> = spec_bfs_loop(fuel0, frontier0, links0, g, tiles@, b);
    let mut done = false;
    while !done && fuel > 0 && frontier.len() > 0
        invariant
            spec_tiles_in_range(tiles@),
            -COORD_LIMIT - 32 <= b.min_x <= b.max_x <= COORD_LIMIT + 32,
            -COORD_LIMIT - 32 <= b.min_y <= b.max_y <= COORD_LIMIT + 32,
            forall|k: int| 0 <= k < frontier@.len() ==> spec_in_box(b, #[trigger] frontier@[k]),
            target == if done {
                links@
            } else {
                spec_bfs_loop(fuel as nat, frontier@, links@, g, tiles@, b)
            },
        decreases (if done {
            0int
        } else {
            1int
        }), fuel,
    {
        let ghost frontier_pre = frontier@;
        let ghost links_pre = links@;
        let ghost fuel_pre = fuel as nat;
        let cur = frontier.pop_front().unwrap();
        proof {
            assert(frontier_pre[0] == cur);
            assert(frontier@ =~= frontier_pre.drop_first());
        }
        if cur == g {
            done = true;
        } else {
            fuel = fuel - 1;
            let cands = get_neighbors(cur, tiles);
            let ghost e = spec_expand(cands@, links_pre, cur, b);
            let ghost front_entry = frontier@;
            let nc = cands.len();
            let mut j: usize = 0;
            proof {
                assert(cands@.skip(0) =~= cands@);
                assert(front_entry + spec_expand(cands@.skip(0), links@, cur, b).0 =~= front_entry
                    + e.0);
            }
            while j < nc
                invariant
                    nc == cands@.len(),
                    0 <= j <= nc,
                    -COORD_LIMIT - 32 <= b.min_x <= b.max_x <= COORD_LIMIT + 32,
                    -COORD_LIMIT - 32 <= b.min_y <= b.max_y <= COORD_LIMIT + 32,
                    forall|k: int|
                        0 <= k < frontier@.len() ==> spec_in_box(b, #[trigger] frontier@[k]),
                    spec_expand(cands@.skip(j as int), links@, cur, b).1 == e.1,
                    frontier@ + spec_expand(cands@.skip(j as int), links@, cur, b).0 == front_entry
                        + e.0,
                decreases nc - j,
            {
                proof {
                    assert(cands@.skip(j as int).len() == nc - j);
                    assert(cands@.skip(j as int)[0] == cands@[j as int]);
                    assert(cands@.skip(j as int).drop_first() =~= cands@.skip(j as int + 1));
                }
                let c = cands[j];
                let inside = c.x >= b.min_x && c.x <= b.max_x && c.y >= b.min_y && c.y <= b.max_y;
                let ghost links_j = links@;
                let ghost frontier_j = frontier@;
                if inside && !is_found_in_vec(&links, c) {
                    frontier.push_back(c);
                    links.push(Path::new(Some(cur), c));
                    proof {
                        let tail = spec_expand(cands@.skip(j as int + 1), links@, cur, b);
                        assert(spec_expand(cands@.skip(j as int), links_j, cur, b) == (
                        seq![c] + tail.0,
                        tail.1,
                        ));
                        assert(frontier@ + tail.0 =~= frontier_j + (seq![c] + tail.0));
                        assert(frontier@ + tail.0 =~= front_entry + e.0);
                    }
                } else {
                    proof {
                        assert(spec_expand(cands@.skip(j as int), links_j, cur, b) == spec_expand(
                            cands@.skip(j as int + 1),
                            links_j,
                            cur,
                            b,
                        ));
                    }
                }
                j = j + 1;
            }
            proof {
                assert(cands@.skip(nc as int).len() == 0);
                assert(spec_expand(cands@.skip(nc as int), links@, cur, b) == (
                Seq::<Vec2i>::empty(),
                links@,
                ));
                assert(links@ == e.1);
                assert(frontier@ + Seq::<Vec2i>::empty() =~= frontier@);
                assert(frontier@ =~= front_entry + e.0);
                assert(frontier@ =~= frontier_pre.drop_first() + e.0);
                assert(spec_bfs_loop(fuel_pre, frontier_pre, links_pre, g, tiles@, b)
                    == spec_bfs_loop(
                    (fuel_pre - 1) as nat,
                    frontier_pre.drop_first() + e.0,
                    e.1,
                    g,
                    tiles@,
                    b,
                ));
            }
        }
    }
    proof {
        if !done {
            assert(spec_bfs_loop(fuel as nat, frontier@, links@, g, tiles@, b) == links@);
        }
        assert(target == links@);
    }
    // Reconstruction: walk the parent table backward from the goal cell.
    let ghost wtarget: Option<Seq<Vec2i>> = spec_walk(links@, g, start, links@.len() as nat);
    proof {
        assert(spec_bfs(start_pos, goal, tiles@) == wtarget);
    }
    let mut path: VecDeque<Vec2i> = VecDeque::new();
    let mut cur = g;
    let mut wfuel: usize = links.len();
    while !(cur.x == start.x && cur.y == start.y)
        invariant
            wtarget == match spec_walk(links@, cur, start, wfuel as nat) {
                Some(s) => Some(s + path@),
                None => None::<Seq<Vec2i>>,
            },
            spec_bfs(start_pos, goal, tiles@) == wtarget,
        decreases wfuel,
    {
        assert(cur != start);
        if wfuel == 0 {
            return None;
        }
        let pr = get_path(&links, cur);
        match pr {
            Some(p) => {
                let ghost path_pre = path@;
                path.push_front(cur);
                proof {
                    let sub = spec_walk(links@, p, start, (wfuel - 1) as nat);
                    if sub is Some {
                        assert(sub.unwrap().push(cur) + path_pre =~= sub.unwrap() + path@);
                    }
                }
                cur = p;
                wfuel = wfuel - 1;
            },
            None => {
                return None;
            },
        }
    }
    proof {
        assert(cur == start);
        assert(spec_walk(links@, cur, start, wfuel as nat) == Some(Seq::<Vec2i>::empty()));
        assert(Seq::<Vec2i>::empty() + path@ =~= path@);
    }
    Some(path)
}

} // verus!
