//! One cell of the grid.

use vstd::prelude::*;
use crate::tile::Tile;
use crate::pickup::Pickup;

verus! {

/// One cell of the world grid.
#[derive(Debug, Clone, Copy, PartialEq, Eq, Structural)]
pub struct Cell {
    /// Immovable type of this cell.
    pub tile: Tile,
    /// For certain kinds of tiles this indicates its value.
    pub tile_value: u32,
    /// What a miner receives when moving onto this cell.
    pub pickup: Pickup,
    /// For certain kinds of pickups this indicates its value.
    pub pickup_value: u32,
    /// How often the miner visited this coordinate.
    pub visited: u32,
}

} // verus!
