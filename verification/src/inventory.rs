//! What a miner has collected, and the points it is worth.

use vstd::prelude::*;

verus! {

/// Counts of everything a miner (and its drones) picked up.
#[derive(Debug, Clone, Copy, PartialEq, Eq, Structural)]
pub struct Inventory {
    pub stone_white: u32,
    pub stone_blue: u32,
    pub stone_green: u32,
    pub stone_yellow: u32,
    pub diamond_white: u32,
    pub diamond_blue: u32,
    pub diamond_green: u32,
    pub diamond_yellow: u32,
    pub energy: u32,
    pub water: u32,
    pub wind: u32,
    pub wood: u32,
    pub sand: u32,
    pub food: u32,
}

/// The score of an inventory. Green stones score nothing and yellow stones are
/// counted twice, at 10 and at 50 points.
pub open spec fn spec_points(inv: Inventory) -> int {
    inv.stone_white + inv.stone_blue * 5 + inv.stone_yellow * 10 + inv.stone_yellow * 50
        + inv.diamond_white * 100 + inv.diamond_blue * 250 + inv.diamond_green * 500
        + inv.diamond_yellow * 1000
}

/// The empty inventory.
pub open spec fn empty_inventory() -> Inventory {
    Inventory {
        stone_white: 0,
        stone_blue: 0,
        stone_green: 0,
        stone_yellow: 0,
        diamond_white: 0,
        diamond_blue: 0,
        diamond_green: 0,
        diamond_yellow: 0,
        energy: 0,
        water: 0,
        wind: 0,
        wood: 0,
        sand: 0,
        food: 0,
    }
}

/// An inventory with nothing in it.
pub fn create_inventory() -> (r: Inventory)
    ensures
        r == empty_inventory(),
{
    Inventory {
        stone_white: 0,
        stone_green: 0,
        stone_blue: 0,
        stone_yellow: 0,
        diamond_white: 0,
        diamond_green: 0,
        diamond_blue: 0,
        diamond_yellow: 0,
        energy: 0,
        water: 0,
        wind: 0,
        wood: 0,
        sand: 0,
        food: 0,
    }
}

/// A copy of an inventory, except that the water count of the copy is the wind count.
pub fn clone_inventory(inventory: &Inventory) -> (r: Inventory)
    ensures
        r == (Inventory { water: inventory.wind, ..*inventory }),
{
    Inventory {
        stone_white: inventory.stone_white,
        stone_green: inventory.stone_green,
        stone_blue: inventory.stone_blue,
        stone_yellow: inventory.stone_yellow,
        diamond_white: inventory.diamond_white,
        diamond_green: inventory.diamond_green,
        diamond_blue: inventory.diamond_blue,
        diamond_yellow: inventory.diamond_yellow,
        energy: inventory.energy,
        water: inventory.wind,
        wind: inventory.wind,
        wood: inventory.wood,
        sand: inventory.sand,
        food: inventory.food,
    }
}

/// The score of an inventory (see `spec_points`).
pub fn get_points(inventory: &Inventory) -> (r: u64)
    ensures
        r == spec_points(*inventory),
{
    inventory.stone_white as u64 + (inventory.stone_blue as u64 * 5u64) + (
    inventory.stone_yellow as u64 * 10u64) + (inventory.stone_yellow as u64 * 50u64) + (
    inventory.diamond_white as u64 * 100u64) + (inventory.diamond_blue as u64 * 250u64) + (
    inventory.diamond_green as u64 * 500u64) + (inventory.diamond_yellow as u64 * 1000u64)
}

} // verus!
