//! Simulation core of a top-down tile-grid action game: the tile grid and its
//! spatial queries, breadth-first pathfinding, axis-separated collision
//! resolution, per-entity combat state machines, and the persisted tile-map
//! format.
//!
//! World positions are integer world units; a grid cell is a 32x32-unit
//! square. Elapsed frame time is threaded into every update call as whole
//! milliseconds.
use vstd::prelude::*;

pub mod combat;
pub mod enemy;
pub mod geometry;
pub mod movement;
pub mod pathfinding;
pub mod player;
pub mod serialization;
pub mod tile;
pub mod utility;

verus! {

/// Coordinates are kept well inside `i32` so that every snap, probe and
/// neighbor step is free of overflow.
pub const COORD_LIMIT: i32 = 1000000;

} // verus!
