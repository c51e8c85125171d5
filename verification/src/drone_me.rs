//! The miner's helper drones: they roam like the miner, without hammers,
//! drills, magnets or castle, collect for the miner and harvest ripe soil.

use vstd::prelude::*;
use crate::movable::{Movable, coord_ok, forward_delta, delta_forward};
use crate::cell::Cell;
use crate::tile::Tile;
use crate::pickup::Pickup;
use crate::options::Options;
use crate::inventory::Inventory;

use crate::drone_san::is_unit_step;
use crate::miner::{has_pickup, inventory_after_pickup, pickup_fits, bump_wall_miner, bumped_wall};
use crate::miner_move::{rewritten, lemma_rewritten, pushed, push_turn, grown, wall_strength, passable};
use crate::world::{
    World, ensure_cell_in_world, get_stored_cell, set_cell_at, can_reach, tile_at, get_cell_tile_at,
    get_cell_tile_value_at, set_cell_tile_value_at,
};

verus! {

/// A drone launched by the miner.
pub struct MeDrone {
    pub movable: Movable,
}

/// A cell a drone stepped onto: a collectible is taken (its value and the tile's
/// value cleared), and the cell counts one more visit.
pub open spec fn drone_picked(c: Cell) -> Cell {
    if has_pickup(c) {
        Cell { pickup: Pickup::Nothing, tile_value: 0, pickup_value: 0, visited: (c.visited + 1) as u32, ..c }
    } else {
        Cell { visited: (c.visited + 1) as u32, ..c }
    }
}

/// Collect what lies on the stored cell `(x, y)` (see `drone_picked`); it counts
/// for the miner's inventory at its own level (at most 3). Returns whether it
/// was energy, which the caller credits to the drone.
pub fn move_drone_pickup_from_empty_tile(options: &Options, world: &mut World, inventory: &mut Inventory, x: i32, y: i32) -> (energy: bool)
    requires
        old(world).wf(),
        old(world).in_bounds(x as int, y as int),
        pickup_fits(*old(inventory), old(world).stored(x as int, y as int), 0),
        old(world).stored(x as int, y as int).visited < u32::MAX,
    ensures
        rewritten(options.seed, old(world), final(world), x as int, y as int, drone_picked(old(world).stored(x as int, y as int))),
        *final(inventory) == inventory_after_pickup(*old(inventory), old(world).stored(x as int, y as int), 0),
        energy == (old(world).stored(x as int, y as int).pickup == Pickup::Energy),
{
    let ghost w0 = *world;
    let c = get_stored_cell(world, x, y);
    let lvl = if c.pickup_value > 3 { 3 } else { c.pickup_value };
    let mut taken = true;
    match c.pickup {
        Pickup::Diamond => {
            if lvl == 0 {
                inventory.diamond_white = inventory.diamond_white + 1;
            } else if lvl == 1 {
                inventory.diamond_green = inventory.diamond_green + 1;
            } else if lvl == 2 {
                inventory.diamond_blue = inventory.diamond_blue + 1;
            } else {
                inventory.diamond_yellow = inventory.diamond_yellow + 1;
            }
        },
        Pickup::Energy => {
            inventory.energy = inventory.energy + 1;
        },
        Pickup::Stone => {
            if lvl == 0 {
                inventory.stone_white = inventory.stone_white + 1;
            } else if lvl == 1 {
                inventory.stone_green = inventory.stone_green + 1;
            } else if lvl == 2 {
                inventory.stone_blue = inventory.stone_blue + 1;
            } else {
                inventory.stone_yellow = inventory.stone_yellow + 1;
            }
        },
        Pickup::Wind => {
            inventory.wind = inventory.wind + 1;
        },
        Pickup::Water => {
            inventory.water = inventory.water + 1;
        },
        Pickup::Wood => {
            inventory.wood = inventory.wood + 1;
        },
        Pickup::Nothing | Pickup::Expando | Pickup::Fountain => {
            taken = false;
        },
    }
    let nc = if taken {
        Cell { tile: c.tile, pickup: Pickup::Nothing, tile_value: 0, pickup_value: 0, visited: c.visited + 1 }
    } else {
        Cell { visited: c.visited + 1, ..c }
    };
    set_cell_at(world, x, y, nc);
    proof {
        lemma_rewritten(options.seed, &w0, world, x as int, y as int, nc);
    }
    c.pickup == Pickup::Energy
}

/// A drone at `m` bumps into the wall of `strength` at `(nx, ny)`, as the miner
/// does without hammers and drills (see `bumped_wall`). The energy it costs is
/// taken by the caller.
pub fn move_drone_bump_wall(options: &Options, world: &mut World, movable: &mut Movable, inventory: &mut Inventory, strength: i32, nx: i32, ny: i32)
    requires
        old(world).wf(),
        old(world).in_bounds(nx as int, ny as int),
        1 <= strength <= 4,
        strength <= 1 ==> old(inventory).sand < u32::MAX,
        coord_ok(nx, ny),
        is_unit_step(nx - old(movable).x, ny - old(movable).y),
    ensures
        bumped_wall(options, old(world), final(world), *old(movable), *final(movable), *old(inventory), *final(inventory),
            strength as int, 0, 0, nx, ny, nx - old(movable).x, ny - old(movable).y),
{
    let dx = nx - movable.x;
    let dy = ny - movable.y;
    bump_wall_miner(options, world, movable, inventory, strength, 0, 0, nx, ny, dx, dy);
}

/// A drone at `m` moves once, through `w1` (the cell ahead stored, see
/// `grown`): it bumps into a wall (see `bumped_wall`, without hammers or
/// drills), turns at a push or impassible cell (see `pushed`, never filling),
/// or steps onto the cell ahead and collects it (see `drone_picked`).
pub open spec fn drone_moved(o: &Options, w: &World, w1: &World, w2: &World, m: Movable, m2: Movable, inv: Inventory, inv2: Inventory, bumped: bool, energy: bool) -> bool {
    let d = forward_delta(m.dir);
    let nx = m.x + d.0;
    let ny = m.y + d.1;
    let c = w1.cell_at(o.seed, nx, ny);
    &&& grown(o.seed, w, w1, nx, ny)
    &&& bumped == (wall_strength(c.tile) > 0)
    &&& energy == (passable(c.tile) && c.pickup == Pickup::Energy)
    &&& if wall_strength(c.tile) > 0 {
        bumped_wall(o, w1, w2, m, m2, inv, inv2, wall_strength(c.tile), 0, 0, nx as i32, ny as i32, d.0, d.1)
    } else if c.tile == Tile::Push || c.tile == Tile::Impassible {
        &&& pushed(o, w1, w2, m, m2, false, (0, 0, 0, 0), d.0, d.1, false)
        &&& inv2 == inv
    } else {
        &&& rewritten(o.seed, w1, w2, nx, ny, drone_picked(c))
        &&& inv2 == inventory_after_pickup(inv, c, 0)
        &&& m2 == Movable { x: nx as i32, y: ny as i32, ..m }
    }
}

/// What a drone's move did, for the caller to settle the drone's energy.
#[derive(Debug, Clone, Copy, PartialEq, Eq, Structural)]
pub struct DroneMove {
    /// The drone bumped into a wall.
    pub bumped: bool,
    /// The drone collected energy.
    pub energy: bool,
}

/// Move a drone once (see `drone_moved`).
pub fn move_drone(options: &Options, world: &mut World, movable: &mut Movable, inventory: &mut Inventory) -> (r: DroneMove)
    requires
        old(world).wf(),
        old(world).in_bounds(old(movable).x as int, old(movable).y as int),
        coord_ok(old(movable).x, old(movable).y),
        coord_ok((old(movable).x + forward_delta(old(movable).dir).0) as i32, (old(movable).y + forward_delta(old(movable).dir).1) as i32),
        can_reach(old(world), old(movable).x + forward_delta(old(movable).dir).0, old(movable).y + forward_delta(old(movable).dir).1),
        ({
            let c = old(world).cell_at(options.seed, old(movable).x + forward_delta(old(movable).dir).0, old(movable).y + forward_delta(old(movable).dir).1);
            &&& wall_strength(c.tile) == 1 ==> old(inventory).sand < u32::MAX
            &&& passable(c.tile) ==> pickup_fits(*old(inventory), c, 0) && c.visited < u32::MAX
        }),
    ensures
        exists|w1: World| #[trigger] drone_moved(options, old(world), &w1, final(world), *old(movable), *final(movable),
            *old(inventory), *final(inventory), r.bumped, r.energy),
{
    let ghost w0 = *world;
    let ghost m0 = *movable;
    let ghost inv0 = *inventory;
    let x = movable.x;
    let y = movable.y;
    let (dx, dy) = delta_forward(movable.dir);
    let nx = x + dx;
    let ny = y + dy;
    ensure_cell_in_world(world, options, nx, ny);
    let ghost w1 = *world;
    let c = get_stored_cell(world, nx, ny);
    proof {
        assert(w1.cell_at(options.seed, nx as int, ny as int) == c);
        assert(w0.cell_at(options.seed, nx as int, ny as int) == c);
        assert(w1.in_bounds(x as int, y as int));
    }
    let r = match c.tile {
        Tile::Wall4 | Tile::Wall3 | Tile::Wall2 | Tile::Wall1 => {
            let strength: i32 = match c.tile {
                Tile::Wall4 => 4,
                Tile::Wall3 => 3,
                Tile::Wall2 => 2,
                _ => 1,
            };
            bump_wall_miner(options, world, movable, inventory, strength, 0, 0, nx, ny, dx, dy);
            DroneMove { bumped: true, energy: false }
        },
        Tile::Push | Tile::Impassible => {
            push_turn(options, world, movable, false, 0, 0, 0, 0, dx, dy);
            DroneMove { bumped: false, energy: false }
        },
        _ => {
            let e = move_drone_pickup_from_empty_tile(options, world, inventory, nx, ny);
            movable.x = nx;
            movable.y = ny;
            DroneMove { bumped: false, energy: e }
        },
    };
    proof {
        assert(drone_moved(options, &w0, &w1, world, m0, *movable, inv0, *inventory, r.bumped, r.energy));
    }
    r
}

/// What a drone's tick did, for the caller to settle energies.
#[derive(Debug, Clone, Copy, PartialEq, Eq, Structural)]
pub struct DroneTick {
    pub moved: DroneMove,
    /// The drone harvested ripe soil: the miner gets food and energy.
    pub harvested: bool,
}

/// One tick of a drone: it moves (see `move_drone`); then, standing on soil, it
/// harvests it: the soil's value goes back to 0, and soil riper than 2 gives
/// the miner one food.
pub fn tick_me_drone(options: &Options, world: &mut World, drone: &mut MeDrone, inventory: &mut Inventory) -> (r: DroneTick)
    requires
        old(world).wf(),
        old(world).in_bounds(old(drone).movable.x as int, old(drone).movable.y as int),
        coord_ok(old(drone).movable.x, old(drone).movable.y),
        coord_ok((old(drone).movable.x + forward_delta(old(drone).movable.dir).0) as i32,
            (old(drone).movable.y + forward_delta(old(drone).movable.dir).1) as i32),
        can_reach(old(world), old(drone).movable.x + forward_delta(old(drone).movable.dir).0,
            old(drone).movable.y + forward_delta(old(drone).movable.dir).1),
        old(inventory).food < u32::MAX,
        ({
            let c = old(world).cell_at(options.seed, old(drone).movable.x + forward_delta(old(drone).movable.dir).0,
                old(drone).movable.y + forward_delta(old(drone).movable.dir).1);
            &&& wall_strength(c.tile) == 1 ==> old(inventory).sand < u32::MAX
            &&& passable(c.tile) ==> pickup_fits(*old(inventory), c, 0) && c.visited < u32::MAX
        }),
    ensures
        exists|w1: World, w2: World, inv2: Inventory| #[trigger] drone_ticked(options, old(world), &w1, &w2, final(world),
            old(drone).movable, final(drone).movable, *old(inventory), inv2, *final(inventory), r),
{
    let ghost w0 = *world;
    let ghost m0 = drone.movable;
    let ghost inv0 = *inventory;
    let moved = move_drone(options, world, &mut drone.movable, inventory);
    let ghost w2 = *world;
    let ghost inv2 = *inventory;
    let ghost w1 = choose|w1: World| #[trigger] drone_moved(options, &w0, &w1, &w2, m0, drone.movable, inv0, inv2, moved.bumped, moved.energy);
    proof {
        assert(w2.in_bounds(drone.movable.x as int, drone.movable.y as int));
    }
    let mut harvested = false;
    if get_cell_tile_at(options, world, drone.movable.x, drone.movable.y) == Tile::Soil {
        let v = get_cell_tile_value_at(options, world, drone.movable.x, drone.movable.y);
        set_cell_tile_value_at(options, world, drone.movable.x, drone.movable.y, 0);
        proof {
            lemma_rewritten(options.seed, &w2, world, drone.movable.x as int, drone.movable.y as int,
                Cell { tile_value: 0, ..w2.stored(drone.movable.x as int, drone.movable.y as int) });
        }
        if v > 2 {
            inventory.food = inventory.food + 1;
            harvested = true;
        }
    }
    let r = DroneTick { moved, harvested };
    proof {
        assert(drone_ticked(options, &w0, &w1, &w2, world, m0, drone.movable, inv0, inv2, *inventory, r));
    }
    r
}

/// A drone tick: a move (see `drone_moved`) to `w2`, then the harvest of the
/// soil it stands on.
pub open spec fn drone_ticked(o: &Options, w: &World, w1: &World, w2: &World, w3: &World, m: Movable, m2: Movable,
    inv: Inventory, inv2: Inventory, inv3: Inventory, r: DroneTick) -> bool {
    let soil = tile_at(o, w2, m2.x as int, m2.y as int) == Tile::Soil;
    let v = w2.stored(m2.x as int, m2.y as int).tile_value;
    &&& drone_moved(o, w, w1, w2, m, m2, inv, inv2, r.moved.bumped, r.moved.energy)
    &&& r.harvested == (soil && v > 2)
    &&& inv3 == (if r.harvested { Inventory { food: (inv2.food + 1) as u32, ..inv2 } } else { inv2 })
    &&& if soil {
        rewritten(o.seed, w2, w3, m2.x as int, m2.y as int, Cell { tile_value: 0, ..w2.stored(m2.x as int, m2.y as int) })
    } else {
        w3 == w2
    }
}

} // verus!
