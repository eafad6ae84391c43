//! Core of an authoritative multiplayer tile-world session server.
//!
//! The library owns the shared game state (connected players and a sparse
//! three-dimensional tile terrain), validates movement requests against the
//! terrain, and frames typed messages as length-prefixed binary records for
//! transport. Positions are fixed-point integers: one tile is `MILLIS_PER_TILE`
//! milli-units wide.

use vstd::prelude::*;

pub mod bytes;
pub mod codec;
pub mod coords;
pub mod messages;
pub mod player;
pub mod process;
pub mod terrain;
pub mod tile;
pub mod world;

verus! {

} // verus!
