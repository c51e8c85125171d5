//! The miner's own rules: what it picks up, how it bumps into walls, and how it
//! crafts its windrone and sandrone.

use vstd::prelude::*;
use crate::movable::{Movable, coord_ok, drill_deeper, drill_room, drill_path, drill_rect, drill_strength, overlay, unvisited, most_visited_turn, get_most_visited_dir_from_xydir, drill_cell};
use crate::cell::Cell;
use crate::tile::Tile;
use crate::pickup::Pickup;
use crate::options::Options;
use crate::inventory::Inventory;
use crate::slottable::SlotKind;
use crate::expando::{rect_of, grow_rect, Rect};
use crate::drone_san::{is_unit_step, Sandrone, SandroneState, set_sandrone_state, with_state};
use crate::drone_win::{Windrone, WindroneModel, WindroneState, set_windrone_state, wind_state};
use crate::world::{World, ensure_cell_in_world, get_stored_cell, set_cell_at, can_reach};

verus! {

/// What picking up the content of a cell did.
#[derive(Debug, Clone, Copy, PartialEq, Eq, Structural)]
pub struct Collected {
    /// Nothing was there to pick up.
    pub boring: bool,
    /// An energy pickup was taken; the miner's energy is topped up by the caller.
    pub energy: bool,
    /// The points of a diamond or stone, when one was taken.
    pub points: Option<i32>,
}

/// The level of a diamond or stone, raised by the primed purity scanners, at most 3.
pub open spec fn purity(pickup_value: u32, primed: u32) -> int {
    if pickup_value + primed > 3 { 3 } else { pickup_value + primed }
}

/// The inventory after taking the pickup of `c`, with `primed` purity scanners.
pub open spec fn inventory_after_pickup(inv: Inventory, c: Cell, primed: u32) -> Inventory {
    match c.pickup {
        Pickup::Diamond => {
            let g = purity(c.pickup_value, primed);
            if g == 0 {
                Inventory { diamond_white: (inv.diamond_white + 1) as u32, ..inv }
            } else if g == 1 {
                Inventory { diamond_green: (inv.diamond_green + 1) as u32, ..inv }
            } else if g == 2 {
                Inventory { diamond_blue: (inv.diamond_blue + 1) as u32, ..inv }
            } else {
                Inventory { diamond_yellow: (inv.diamond_yellow + 1) as u32, ..inv }
            }
        },
        Pickup::Stone => {
            let g = purity(c.pickup_value, primed);
            if g == 0 {
                Inventory { stone_white: (inv.stone_white + 1) as u32, ..inv }
            } else if g == 1 {
                Inventory { stone_green: (inv.stone_green + 1) as u32, ..inv }
            } else if g == 2 {
                Inventory { stone_blue: (inv.stone_blue + 1) as u32, ..inv }
            } else {
                Inventory { stone_yellow: (inv.stone_yellow + 1) as u32, ..inv }
            }
        },
        Pickup::Energy => Inventory { energy: (inv.energy + 1) as u32, ..inv },
        Pickup::Wind => Inventory { wind: (inv.wind + 1) as u32, ..inv },
        Pickup::Water => Inventory { water: (inv.water + 1) as u32, ..inv },
        Pickup::Wood => Inventory { wood: (inv.wood + 1) as u32, ..inv },
        _ => inv,
    }
}

/// Whether `c` holds something to pick up (not nothing, an expando or a fountain).
pub open spec fn has_pickup(c: Cell) -> bool {
    c.pickup != Pickup::Nothing && c.pickup != Pickup::Expando && c.pickup != Pickup::Fountain
}

/// What taking the pickup of `c` reports.
pub open spec fn collected_of(c: Cell, primed: u32) -> Collected {
    Collected {
        boring: !has_pickup(c),
        energy: c.pickup == Pickup::Energy,
        points: if c.pickup == Pickup::Diamond {
            Some((purity(c.pickup_value, primed) + 1) as i32)
        } else if c.pickup == Pickup::Stone {
            Some(c.pickup_value as i32)
        } else {
            None
        },
    }
}

/// Taking the pickup of `c` can be counted without overflow.
pub open spec fn pickup_fits(inv: Inventory, c: Cell, primed: u32) -> bool {
    &&& (c.pickup == Pickup::Diamond || c.pickup == Pickup::Stone) ==> c.pickup_value + primed <= u32::MAX
    &&& inventory_after_pickup(inv, c, primed) == inventory_after_pickup(inv, c, primed)
    &&& match c.pickup {
        Pickup::Diamond => {
            let g = purity(c.pickup_value, primed);
            &&& g == 0 ==> inv.diamond_white < u32::MAX
            &&& g == 1 ==> inv.diamond_green < u32::MAX
            &&& g == 2 ==> inv.diamond_blue < u32::MAX
            &&& g == 3 ==> inv.diamond_yellow < u32::MAX
        },
        Pickup::Stone => {
            let g = purity(c.pickup_value, primed);
            &&& g == 0 ==> inv.stone_white < u32::MAX
            &&& g == 1 ==> inv.stone_green < u32::MAX
            &&& g == 2 ==> inv.stone_blue < u32::MAX
            &&& g == 3 ==> inv.stone_yellow < u32::MAX
        },
        Pickup::Energy => inv.energy < u32::MAX,
        Pickup::Wind => inv.wind < u32::MAX,
        Pickup::Water => inv.water < u32::MAX,
        Pickup::Wood => inv.wood < u32::MAX,
        _ => true,
    }
}

/// Pick up whatever lies on `(x, y)`, growing the world to hold the cell. A
/// diamond or stone counts at its level raised by the `primed` purity scanners
/// (at most 3); the cell keeps its tile and loses its pickup. Returns whether
/// nothing was there, whether it was energy, and the points of a diamond or stone.
pub fn move_miner_pickup_from_empty_tile(options: &Options, world: &mut World, inventory: &mut Inventory, primed: u32, x: i32, y: i32) -> (r: Collected)
    requires
        old(world).wf(),
        can_reach(old(world), x as int, y as int),
        pickup_fits(*old(inventory), old(world).cell_at(options.seed, x as int, y as int), primed),
    ensures
        final(world).wf(),
        final(world).in_bounds(x as int, y as int),
        rect_of(final(world)) == grow_rect(rect_of(old(world)), x as int, y as int),
        final(world).expandos@ == old(world).expandos@,
        final(world).fountains@ == old(world).fountains@,
        ({
            let c = old(world).cell_at(options.seed, x as int, y as int);
            &&& r == collected_of(c, primed)
            &&& *final(inventory) == inventory_after_pickup(*old(inventory), c, primed)
            &&& forall|qx: int, qy: int| #[trigger] final(world).cell_at(options.seed, qx, qy) == (if qx == x && qy == y && has_pickup(c) {
                Cell { pickup: Pickup::Nothing, pickup_value: 0, ..c }
            } else {
                old(world).cell_at(options.seed, qx, qy)
            })
        }),
{
    let ghost w0 = *world;
    ensure_cell_in_world(world, options, x, y);
    let ghost w1 = *world;
    let c = get_stored_cell(world, x, y);
    assert(c == w0.cell_at(options.seed, x as int, y as int)) by {
        assert(w1.cell_at(options.seed, x as int, y as int) == w0.cell_at(options.seed, x as int, y as int));
    }
    let mut points: Option<i32> = None;
    match c.pickup {
        Pickup::Diamond => {
            let gv = if c.pickup_value + primed > 3 { 3 } else { c.pickup_value + primed };
            if gv == 0 {
                inventory.diamond_white = inventory.diamond_white + 1;
            } else if gv == 1 {
                inventory.diamond_green = inventory.diamond_green + 1;
            } else if gv == 2 {
                inventory.diamond_blue = inventory.diamond_blue + 1;
            } else {
                inventory.diamond_yellow = inventory.diamond_yellow + 1;
            }
            points = Some((gv + 1) as i32);
        },
        Pickup::Energy => {
            inventory.energy = inventory.energy + 1;
        },
        Pickup::Stone => {
            let gv = if c.pickup_value + primed > 3 { 3 } else { c.pickup_value + primed };
            if gv == 0 {
                inventory.stone_white = inventory.stone_white + 1;
            } else if gv == 1 {
                inventory.stone_green = inventory.stone_green + 1;
            } else if gv == 2 {
                inventory.stone_blue = inventory.stone_blue + 1;
            } else {
                inventory.stone_yellow = inventory.stone_yellow + 1;
            }
            points = Some(c.pickup_value as i32);
        },
        Pickup::Wind => {
            inventory.wind = inventory.wind + 1;
        },
        Pickup::Water => {
            inventory.water = inventory.water + 1;
        },
        Pickup::Wood => {
            inventory.wood = inventory.wood + 1;
        },
        Pickup::Nothing | Pickup::Expando | Pickup::Fountain => {
            return Collected { boring: true, energy: false, points: None };
        },
    }
    set_cell_at(world, x, y, Cell { pickup: Pickup::Nothing, pickup_value: 0, ..c });
    proof {
        assert forall|qx: int, qy: int| #[trigger] world.cell_at(options.seed, qx, qy) == (if qx == x && qy == y && has_pickup(c) {
            Cell { pickup: Pickup::Nothing, pickup_value: 0, ..c }
        } else {
            w0.cell_at(options.seed, qx, qy)
        }) by {
            assert(w1.cell_at(options.seed, qx, qy) == w0.cell_at(options.seed, qx, qy));
        }
    }
    Collected { boring: false, energy: c.pickup == Pickup::Energy, points }
}

/// The wall a bump leaves of a wall of `strength` hit with `hammers` hammers:
/// it loses one level plus one per hammer; at zero it breaks into an empty cell.
pub open spec fn bumped_cell(c: Cell, strength: int, hammers: int) -> Cell {
    let n = strength - (1 + hammers);
    if n >= 3 {
        unvisited(Tile::Wall3, c)
    } else if n == 2 {
        unvisited(Tile::Wall2, c)
    } else if n == 1 {
        unvisited(Tile::Wall1, c)
    } else {
        unvisited(Tile::Empty, c)
    }
}

proof fn lemma_drill_frame(seed: u64, a: &World, b: &World, fx: int, fy: int, rem: int, str: int, px: int, py: int, dx: int, dy: int, r: Rect, j: int)
    requires
        is_unit_step(dx, dy),
        j >= 1,
        px == fx + (if dx == 0 { 0 } else if dx > 0 { j } else { -j }),
        py == fy + (if dy == 0 { 0 } else if dy > 0 { j } else { -j }),
        forall|qx: int, qy: int| (qx != fx || qy != fy) ==> #[trigger] a.cell_at(seed, qx, qy) == b.cell_at(seed, qx, qy),
    ensures
        drill_path(seed, a, rem, str, px, py, dx, dy) == drill_path(seed, b, rem, str, px, py, dx, dy),
        drill_rect(seed, a, r, rem, str, px, py, dx, dy) == drill_rect(seed, b, r, rem, str, px, py, dx, dy),
    decreases str,
{
    if rem > 0 && str > 0 {
        assert(a.cell_at(seed, px, py) == b.cell_at(seed, px, py));
        let (nc, stop) = drill_cell(a.cell_at(seed, px, py), str);
        lemma_drill_frame(seed, a, b, fx, fy, if stop { 0 } else { rem - 1 }, str - 1, px + dx, py + dy, dx, dy, r, j + 1);
        lemma_drill_frame(seed, a, b, fx, fy, if stop { 0 } else { rem - 1 }, str - 1, px + dx, py + dy, dx, dy, grow_rect(r, px, py), j + 1);
    }
}


/// The miner at `m` bumps into the wall of `strength` at `(nx, ny)`, hit in
/// direction `(dx, dy)`: the wall weakens (see `bumped_cell`), a broken wall
/// gives one sand, the drills punch on behind it (see `drill_path`), and the
/// miner turns towards the more visited side of the wall (see
/// `most_visited_turn`), as the world stands after the bump.
pub open spec fn bumped_wall(o: &Options, w: &World, w2: &World, m: Movable, m2: Movable, inv: Inventory, inv2: Inventory,
    strength: int, hammers: i32, drills: int, nx: i32, ny: i32, dx: int, dy: int) -> bool {
    let c = w.cell_at(o.seed, nx as int, ny as int);
    let bumped = bumped_cell(c, strength, hammers as int);
    let path = if drills > 0 {
        drill_path(o.seed, w, drills, drill_strength(hammers), nx + dx, ny + dy, dx, dy)
    } else {
        Seq::empty()
    };
    &&& w2.wf()
    &&& w2.expandos@ == w.expandos@
    &&& w2.fountains@ == w.fountains@
    &&& m2 == Movable { dir: most_visited_turn(o, w2, nx, ny, m.dir), ..m }
    &&& rect_of(w2) == (if drills > 0 {
        drill_rect(o.seed, w, rect_of(w), drills, drill_strength(hammers), nx + dx, ny + dy, dx, dy)
    } else {
        rect_of(w)
    })
    &&& forall|qx: int, qy: int| #[trigger] w2.cell_at(o.seed, qx, qy) == (if qx == nx && qy == ny {
        bumped
    } else {
        overlay(o.seed, w, path, qx, qy)
    })
    &&& inv2 == (if strength - (1 + hammers) <= 0 {
        Inventory { sand: (inv.sand + 1) as u32, ..inv }
    } else {
        inv
    })
}

/// Bump into the wall of `strength` at `(nextx, nexty)`, hit in direction
/// `(deltax, deltay)` (see `bumped_wall`). The energy the bump costs is taken
/// by the caller.
pub fn bump_wall_miner(
    options: &Options,
    world: &mut World,
    movable: &mut Movable,
    inventory: &mut Inventory,
    strength: i32,
    hammers: i32,
    drills: i32,
    nextx: i32,
    nexty: i32,
    deltax: i32,
    deltay: i32,
)
    requires
        old(world).wf(),
        old(world).in_bounds(nextx as int, nexty as int),
        1 <= strength <= 4,
        0 <= hammers < i32::MAX,
        strength - (1 + hammers) <= 0 ==> old(inventory).sand < u32::MAX,
        is_unit_step(deltax as int, deltay as int),
        drills > 0 ==> drill_room(old(world), hammers),
        coord_ok(nextx, nexty),
    ensures
        bumped_wall(options, old(world), final(world), *old(movable), *final(movable), *old(inventory), *final(inventory),
            strength as int, hammers, drills as int, nextx, nexty, deltax as int, deltay as int),
{
    let ghost w0 = *world;
    let ghost seed = options.seed;
    let cell = get_stored_cell(world, nextx, nexty);
    let n: i32 = strength - (1 + hammers);
    let bumped = if n >= 3 {
        crate::world::create_unvisited_cell(Tile::Wall3, cell.pickup, cell.tile_value, cell.pickup_value)
    } else if n == 2 {
        crate::world::create_unvisited_cell(Tile::Wall2, cell.pickup, cell.tile_value, cell.pickup_value)
    } else if n == 1 {
        crate::world::create_unvisited_cell(Tile::Wall1, cell.pickup, cell.tile_value, cell.pickup_value)
    } else {
        crate::world::create_unvisited_cell(Tile::Empty, cell.pickup, cell.tile_value, cell.pickup_value)
    };
    set_cell_at(world, nextx, nexty, bumped);
    let ghost w1 = *world;
    if n <= 0 {
        inventory.sand = inventory.sand + 1;
    }
    if drills > 0 {
        drill_deeper(drills, hammers, nextx, nexty, deltax, deltay, world, options);
        proof {
            lemma_drill_frame(seed, &w1, &w0, nextx as int, nexty as int, drills as int, drill_strength(hammers), nextx + deltax, nexty + deltay, deltax as int, deltay as int, rect_of(&w1), 1);
            assert forall|qx: int, qy: int| #[trigger] world.cell_at(seed, qx, qy) == (if qx == nextx && qy == nexty {
                bumped_cell(w0.cell_at(seed, nextx as int, nexty as int), strength as int, hammers as int)
            } else {
                overlay(seed, &w0, drill_path(seed, &w0, drills as int, drill_strength(hammers), nextx + deltax, nexty + deltay, deltax as int, deltay as int), qx, qy)
            }) by {
                lemma_drill_avoids(seed, &w0, nextx as int, nexty as int, drills as int, drill_strength(hammers), nextx + deltax, nexty + deltay, deltax as int, deltay as int, 1);
                if qx == nextx && qy == nexty {
                    lemma_overlay_miss(seed, &w1, drill_path(seed, &w0, drills as int, drill_strength(hammers), nextx + deltax, nexty + deltay, deltax as int, deltay as int), qx, qy);
                } else {
                    lemma_overlay_frame(seed, &w1, &w0, nextx as int, nexty as int, drill_path(seed, &w0, drills as int, drill_strength(hammers), nextx + deltax, nexty + deltay, deltax as int, deltay as int), qx, qy);
                }
            }
        }
    } else {
        proof {
            assert forall|qx: int, qy: int| #[trigger] world.cell_at(seed, qx, qy) == (if qx == nextx && qy == nexty {
                bumped_cell(w0.cell_at(seed, nextx as int, nexty as int), strength as int, hammers as int)
            } else {
                overlay(seed, &w0, Seq::empty(), qx, qy)
            }) by {
            }
        }
    }
    movable.dir = get_most_visited_dir_from_xydir(options, world, nextx, nexty, movable.dir);
}

/// Overlays over two worlds that agree away from `(fx, fy)` agree away from it.
proof fn lemma_overlay_frame(seed: u64, a: &World, b: &World, fx: int, fy: int, edits: Seq<(int, int, Cell)>, x: int, y: int)
    requires
        forall|qx: int, qy: int| (qx != fx || qy != fy) ==> #[trigger] a.cell_at(seed, qx, qy) == b.cell_at(seed, qx, qy),
        x != fx || y != fy,
    ensures
        overlay(seed, a, edits, x, y) == overlay(seed, b, edits, x, y),
    decreases edits.len(),
{
    if edits.len() > 0 {
        lemma_overlay_frame(seed, a, b, fx, fy, edits.drop_last(), x, y);
    }
}

/// A drill path from a step beyond `(fx, fy)` never rewrites `(fx, fy)`.
proof fn lemma_drill_avoids(seed: u64, w: &World, fx: int, fy: int, rem: int, str: int, px: int, py: int, dx: int, dy: int, j: int)
    requires
        is_unit_step(dx, dy),
        j >= 1,
        px == fx + (if dx == 0 { 0 } else if dx > 0 { j } else { -j }),
        py == fy + (if dy == 0 { 0 } else if dy > 0 { j } else { -j }),
    ensures
        forall|i: int| 0 <= i < drill_path(seed, w, rem, str, px, py, dx, dy).len()
            ==> (#[trigger] drill_path(seed, w, rem, str, px, py, dx, dy)[i]).0 != fx
                || drill_path(seed, w, rem, str, px, py, dx, dy)[i].1 != fy,
    decreases str,
{
    if rem > 0 && str > 0 {
        let (nc, stop) = drill_cell(w.cell_at(seed, px, py), str);
        let nrem = if stop { 0 } else { rem - 1 };
        lemma_drill_avoids(seed, w, fx, fy, nrem, str - 1, px + dx, py + dy, dx, dy, j + 1);
        let rest = drill_path(seed, w, nrem, str - 1, px + dx, py + dy, dx, dy);
        let all = drill_path(seed, w, rem, str, px, py, dx, dy);
        match nc {
            Some(c) => {
                assert forall|i: int| 0 <= i < all.len() implies (#[trigger] all[i]).0 != fx || all[i].1 != fy by {
                    if i > 0 {
                        assert(all[i] == rest[i - 1]);
                    }
                }
            },
            None => {},
        }
    }
}

/// A cell that no edit rewrites shows the world's cell.
proof fn lemma_overlay_miss(seed: u64, w: &World, edits: Seq<(int, int, Cell)>, x: int, y: int)
    requires
        forall|i: int| 0 <= i < edits.len() ==> (#[trigger] edits[i]).0 != x || edits[i].1 != y,
    ensures
        overlay(seed, w, edits, x, y) == w.cell_at(seed, x, y),
    decreases edits.len(),
{
    if edits.len() > 0 {
        assert(edits.last() == edits[edits.len() - 1]);
        assert forall|i: int| 0 <= i < edits.drop_last().len() implies (#[trigger] edits.drop_last()[i]).0 != x || edits.drop_last()[i].1 != y by {
            assert(edits.drop_last()[i] == edits[i]);
        }
        lemma_overlay_miss(seed, w, edits.drop_last(), x, y);
    }
}


/// What a miner's tick did with its drones.
#[derive(Debug, Clone, Copy, PartialEq, Eq, Structural)]
pub struct DroneEvents {
    /// The slot the windrone was crafted into, when it was crafted.
    pub windrone_slot: Option<usize>,
    /// The slot the sandrone was crafted into, when it was crafted.
    pub sandrone_slot: Option<usize>,
    /// The windrone came home: the miner gets half its missing energy back.
    pub energy_boost: bool,
}

/// The stones of every kind.
pub open spec fn stone_count(inv: Inventory) -> int {
    inv.stone_white + inv.stone_blue + inv.stone_green + inv.stone_yellow
}

/// The stones that a sandrone can be built from: all but the white ones.
pub open spec fn rich_stone_count(inv: Inventory) -> int {
    inv.stone_blue + inv.stone_green + inv.stone_yellow
}

/// A windrone can be crafted: none is carried yet, a slot is empty, and there
/// are more than five wood and more than five stones.
pub open spec fn windrone_craftable(kinds: Seq<SlotKind>, inv: Inventory) -> bool {
    &&& !kinds.contains(SlotKind::Windrone)
    &&& kinds.contains(SlotKind::Emptiness)
    &&& inv.wood > 5
    &&& stone_count(inv) > 5
}

/// A sandrone can be crafted: none is carried yet, a slot is empty, and there
/// are more than five wood, more than ten water and more than five non-white
/// stones.
pub open spec fn sandrone_craftable(kinds: Seq<SlotKind>, inv: Inventory) -> bool {
    &&& !kinds.contains(SlotKind::Sandrone)
    &&& kinds.contains(SlotKind::Emptiness)
    &&& inv.wood > 5
    &&& inv.water > 10
    &&& rich_stone_count(inv) > 5
}

/// The index of the first empty slot (the length when there is none).
pub open spec fn first_empty(kinds: Seq<SlotKind>) -> int
    decreases kinds.len(),
{
    if kinds.len() == 0 {
        0
    } else if kinds[0] == SlotKind::Emptiness {
        0
    } else {
        1 + first_empty(kinds.drop_first())
    }
}

/// As many as `want`, or all there are.
pub open spec fn take_up_to(have: u32, want: int) -> int {
    if have < want { have as int } else { want }
}

/// The inventory after crafting a windrone: five wood, and five stones taken
/// white first, then blue, green and yellow.
pub open spec fn spend_for_windrone(inv: Inventory) -> Inventory {
    let w = take_up_to(inv.stone_white, 5);
    let b = take_up_to(inv.stone_blue, 5 - w);
    let g = take_up_to(inv.stone_green, 5 - w - b);
    let y = take_up_to(inv.stone_yellow, 5 - w - b - g);
    Inventory {
        wood: (inv.wood - 5) as u32,
        stone_white: (inv.stone_white - w) as u32,
        stone_blue: (inv.stone_blue - b) as u32,
        stone_green: (inv.stone_green - g) as u32,
        stone_yellow: (inv.stone_yellow - y) as u32,
        ..inv
    }
}

/// The inventory after crafting a sandrone: five wood, ten water, and five
/// stones less the white ones held (up to five), which are counted but kept,
/// taken blue first, then green and yellow.
pub open spec fn spend_for_sandrone(inv: Inventory) -> Inventory {
    let w = take_up_to(inv.stone_white, 5);
    let b = take_up_to(inv.stone_blue, 5 - w);
    let g = take_up_to(inv.stone_green, 5 - w - b);
    let y = take_up_to(inv.stone_yellow, 5 - w - b - g);
    Inventory {
        wood: (inv.wood - 5) as u32,
        water: (inv.water - 10) as u32,
        stone_blue: (inv.stone_blue - b) as u32,
        stone_green: (inv.stone_green - g) as u32,
        stone_yellow: (inv.stone_yellow - y) as u32,
        ..inv
    }
}

proof fn lemma_first_empty(kinds: Seq<SlotKind>, i: int)
    requires
        0 <= i < kinds.len(),
        kinds[i] == SlotKind::Emptiness,
        forall|j: int| 0 <= j < i ==> kinds[j] != SlotKind::Emptiness,
    ensures
        first_empty(kinds) == i,
    decreases i,
{
    if i > 0 {
        assert(kinds[0] != SlotKind::Emptiness);
        assert forall|j: int| 0 <= j < i - 1 implies kinds.drop_first()[j] != SlotKind::Emptiness by {
            assert(kinds.drop_first()[j] == kinds[j + 1]);
        }
        lemma_first_empty(kinds.drop_first(), i - 1);
    }
}

/// Scan the slots: whether none holds `kind` and whether one is empty.
fn scan_slots(kinds: &Vec<SlotKind>, kind: SlotKind) -> (r: (bool, bool))
    requires
        kind != SlotKind::Emptiness,
    ensures
        r.0 == !kinds@.contains(kind),
        r.0 ==> r.1 == kinds@.contains(SlotKind::Emptiness),
{
    let mut has_empty = false;
    let mut i: usize = 0;
    while i < kinds.len()
        invariant
            i <= kinds.len(),
            kind != SlotKind::Emptiness,
            forall|j: int| 0 <= j < i ==> kinds@[j] != kind,
            has_empty <==> exists|j: int| 0 <= j < i && kinds@[j] == SlotKind::Emptiness,
        decreases kinds.len() - i,
    {
        let k = kinds[i];
        if k == kind {
            assert(kinds@[i as int] == kind);
            return (false, false);
        }
        if k == SlotKind::Emptiness {
            has_empty = true;
        }
        i = i + 1;
    }
    (true, has_empty)
}

/// Whether a windrone can be crafted (see `windrone_craftable`).
pub fn can_craft_windrone(kinds: &Vec<SlotKind>, inventory: &Inventory) -> (r: bool)
    ensures
        r == windrone_craftable(kinds@, *inventory),
{
    let (none, has_empty) = scan_slots(kinds, SlotKind::Windrone);
    if !none || !has_empty {
        return false;
    }
    inventory.wood > 5 && (inventory.stone_white as u64 + inventory.stone_blue as u64
        + inventory.stone_green as u64 + inventory.stone_yellow as u64) > 5
}

/// Whether a sandrone can be crafted (see `sandrone_craftable`).
pub fn can_craft_sandrone(kinds: &Vec<SlotKind>, inventory: &Inventory) -> (r: bool)
    ensures
        r == sandrone_craftable(kinds@, *inventory),
{
    let (none, has_empty) = scan_slots(kinds, SlotKind::Sandrone);
    if !none || !has_empty {
        return false;
    }
    inventory.wood > 5 && inventory.water > 10 && (inventory.stone_blue as u64
        + inventory.stone_green as u64 + inventory.stone_yellow as u64) > 5
}

/// Put `kind` in the first empty slot, returning its index.
fn fill_first_empty(kinds: &mut Vec<SlotKind>, kind: SlotKind) -> (r: usize)
    requires
        old(kinds)@.contains(SlotKind::Emptiness),
    ensures
        r == first_empty(old(kinds)@),
        r < old(kinds)@.len(),
        final(kinds)@ == old(kinds)@.update(r as int, kind),
{
    let ghost k0 = kinds@;
    let mut i: usize = 0;
    while i < kinds.len()
        invariant
            i <= kinds.len(),
            kinds@ == k0,
            k0 == old(kinds)@,
            k0.contains(SlotKind::Emptiness),
            forall|j: int| 0 <= j < i ==> k0[j] != SlotKind::Emptiness,
        decreases kinds.len() - i,
    {
        if kinds[i] == SlotKind::Emptiness {
            proof { lemma_first_empty(k0, i as int); }
            kinds.set(i, kind);
            return i;
        }
        i = i + 1;
    }
    i
}

/// Take up to `left` from `count`: returns what is left to take.
fn take_stones(count: &mut u32, left: u32) -> (r: u32)
    ensures
        r == left - take_up_to(*old(count), left as int),
        *final(count) == *old(count) - take_up_to(*old(count), left as int),
{
    let next = if *count < left { *count } else { left };
    *count = *count - next;
    left - next
}

/// The drone half of a miner's tick. An unbuilt windrone is crafted when it
/// can be (see `windrone_craftable`, `spend_for_windrone`) into the first empty
/// slot and then waits for wind; a windrone ready for take-off is sent to its
/// goal for ten wind; one that returned home waits for wind again and earns the
/// miner an energy boost. Then an unbuilt sandrone is crafted when it can be
/// (see `sandrone_craftable`, `spend_for_sandrone`) into the first empty slot
/// and waits for water. Moving the miner, unless the sandrone carries it, is
/// left to the caller.
pub fn tick_miner(windrone: &mut Windrone, sandrone: &mut Sandrone, inventory: &mut Inventory, kinds: &mut Vec<SlotKind>) -> (r: DroneEvents)
    requires
        old(windrone).state == WindroneState::ReadyForTakeOff ==> old(inventory).wind >= 10,
    ensures
        ({
            let w0 = old(windrone)@;
            let inv0 = *old(inventory);
            let k0 = old(kinds)@;
            let craft_w = w0.state == WindroneState::Unconstructed && windrone_craftable(k0, inv0);
            let inv1 = if craft_w {
                spend_for_windrone(inv0)
            } else if w0.state == WindroneState::ReadyForTakeOff {
                Inventory { wind: (inv0.wind - 10) as u32, ..inv0 }
            } else {
                inv0
            };
            let k1 = if craft_w { k0.update(first_empty(k0), SlotKind::Windrone) } else { k0 };
            let s0 = old(sandrone)@;
            let craft_s = s0.state == SandroneState::Unconstructed && sandrone_craftable(k1, inv1);
            &&& final(windrone)@ == (if craft_w {
                WindroneModel { state: WindroneState::WaitingForWind, ..w0 }
            } else if w0.state == WindroneState::ReadyForTakeOff {
                wind_state(w0, WindroneState::FlyingToGoal)
            } else if w0.state == WindroneState::ReturnedHome {
                wind_state(w0, WindroneState::WaitingForWind)
            } else {
                w0
            })
            &&& r.windrone_slot == (if craft_w { Some(first_empty(k0) as usize) } else { None })
            &&& r.energy_boost == (w0.state == WindroneState::ReturnedHome)
            &&& final(sandrone)@ == (if craft_s { with_state(s0, SandroneState::WaitingForWater) } else { s0 })
            &&& r.sandrone_slot == (if craft_s { Some(first_empty(k1) as usize) } else { None })
            &&& *final(inventory) == (if craft_s { spend_for_sandrone(inv1) } else { inv1 })
            &&& final(kinds)@ == (if craft_s { k1.update(first_empty(k1), SlotKind::Sandrone) } else { k1 })
        }),
{
    let mut windrone_slot: Option<usize> = None;
    let mut energy_boost = false;
    match windrone.state {
        WindroneState::Unconstructed => {
            if can_craft_windrone(kinds, inventory) {
                inventory.wood = inventory.wood - 5;
                let left = take_stones(&mut inventory.stone_white, 5);
                let left = take_stones(&mut inventory.stone_blue, left);
                let left = take_stones(&mut inventory.stone_green, left);
                let _left = take_stones(&mut inventory.stone_yellow, left);
                let i = fill_first_empty(kinds, SlotKind::Windrone);
                windrone.state = WindroneState::WaitingForWind;
                windrone_slot = Some(i);
            }
        },
        WindroneState::ReadyForTakeOff => {
            set_windrone_state(windrone, WindroneState::FlyingToGoal);
            inventory.wind = inventory.wind - 10;
        },
        WindroneState::ReturnedHome => {
            set_windrone_state(windrone, WindroneState::WaitingForWind);
            energy_boost = true;
        },
        _ => {},
    }
    let mut sandrone_slot: Option<usize> = None;
    match sandrone.state {
        SandroneState::Unconstructed => {
            if can_craft_sandrone(kinds, inventory) {
                inventory.wood = inventory.wood - 5;
                inventory.water = inventory.water - 10;
                let left: u32 = if inventory.stone_white < 5 { 5 - inventory.stone_white } else { 0 };
                let left = take_stones(&mut inventory.stone_blue, left);
                let left = take_stones(&mut inventory.stone_green, left);
                let _left = take_stones(&mut inventory.stone_yellow, left);
                let i = fill_first_empty(kinds, SlotKind::Sandrone);
                set_sandrone_state(sandrone, SandroneState::WaitingForWater);
                sandrone_slot = Some(i);
            }
        },
        _ => {},
    }
    DroneEvents { windrone_slot, sandrone_slot, energy_boost }
}

} // verus!
