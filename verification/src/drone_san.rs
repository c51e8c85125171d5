//! The sandrone: a drone that turns sand into a castle of push cells around the
//! origin, airlifts the miner back home once the castle is big enough, and then
//! redecorates the castle by pushing its walls around.

use vstd::prelude::*;
use vstd::string::*;
use std::collections::VecDeque;
use crate::movable::{Movable, Direction};
use crate::tile::Tile;
use crate::pickup::Pickup;

use crate::options::Options;
use crate::inventory::Inventory;
use crate::world::{World, tile_at, stuff_at, get_cell_tile_at, get_cell_stuff_at, get_cell_tile_value_at, set_cell_tile_at, set_cell_tile_value_at, CellEdit, edited_tile, world_edited, edits_in_bounds, lemma_world_edited_none, lemma_world_edited_step, lemma_edited_tile};

verus! {

/// The `what` code of a sandrone's movable.
pub const WHAT_SANDRONE: i32 = 2;

pub const SANDRONE_IDLE: &'static str = "Idle. Waiting for enough water...";
pub const SANDRONE_WAITING: &'static str = "Waiting for enough water to take off...";
pub const SANDRONE_TO_ORIGIN: &'static str = "Moving to cell 0x0...";
pub const SANDRONE_TO_NEIGHBOR: &'static str = "Moving to neighbor cell";
pub const SANDRONE_BUILDING: &'static str = "Building a push cell...";
pub const SANDRONE_PICKING_UP: &'static str = "Picking up miner...";
pub const SANDRONE_DELIVERING: &'static str = "Delivering miner to origin...";
pub const SANDRONE_REDECORATING: &'static str = "Redecorating the castle";
pub const SANDRONE_CASTLE_DONE: &'static str = "Idle. Waiting for completed castle.";
pub const SANDRONE_BACK_HOME: &'static str = "Idle. Waiting for enough wind...";

/// What a sandrone is doing.
#[derive(Debug, Clone, Copy, PartialEq, Eq, Structural)]
pub enum SandroneState {
    /// Not yet built.
    Unconstructed,
    /// Waiting for enough sand.
    WaitingForWater,
    /// Moving to the origin.
    MovingToOrigin,
    /// Making a move along the castle.
    MovingToNeighborCell,
    /// Converting an empty cell to a push cell.
    BuildingArrowCell,
    /// On its way to pick up the miner.
    PickingUpMiner,
    /// On its way to deliver the miner to the origin.
    DeliveringMiner,
    /// After the castle is done: moving over impassible cells and pushing walls.
    Redecorating,
}

/// A drone that builds a sand castle.
#[derive(Debug)]
pub struct Sandrone {
    pub state: SandroneState,
    /// What the sandrone is doing, in words.
    pub status_desc: String,
    pub movable: Movable,
    /// The push cells built so far.
    pub push_tiles: Vec<(i32, i32)>,
    /// The impassible cells put down so far.
    pub impassable_tiles: Vec<(i32, i32)>,
    /// The order in which the four neighbours are tried; rotated so that the
    /// last direction moved comes second, which prevents short loops.
    pub direction_cycle: VecDeque<(i32, i32)>,
    /// Carrying the miner back to the origin.
    pub air_lifting: bool,
    /// The miner was carried back to the origin.
    pub air_lifted: bool,
    /// Tick at which the castle was completed.
    pub post_castle: u32,
    pub tmp: u32,
    /// The last direction moved, for backtracking over push cells.
    pub last_dx: i32,
    pub last_dy: i32,
    pub seeking: bool,
    pub backtracking: bool,
    pub found_end: bool,
    pub last_expansion_x: i32,
    pub last_expansion_y: i32,
    /// The rectangle of the castle, one wider than the push cells on most sides.
    pub expansion_min_x: i32,
    pub expansion_min_y: i32,
    pub expansion_max_x: i32,
    pub expansion_max_y: i32,
    /// Whether an impassible cell was put at an end of the castle.
    pub plugged_a_hole: bool,
    /// The last cell by the castle wall that the miner left open, so that the
    /// castle keeps a way out while it is filled.
    pub last_empty_castle_exit_x: i32,
    pub last_empty_castle_exit_y: i32,
}


/// The sandrone as plain values: its collections by their contents.
pub struct SandroneModel {
    pub state: SandroneState,
    pub status: Seq<char>,
    pub movable: Movable,
    pub push_tiles: Seq<(i32, i32)>,
    pub impassable_tiles: Seq<(i32, i32)>,
    pub cycle: Seq<(i32, i32)>,
    pub air_lifting: bool,
    pub air_lifted: bool,
    pub post_castle: u32,
    pub tmp: u32,
    pub last_dx: i32,
    pub last_dy: i32,
    pub seeking: bool,
    pub backtracking: bool,
    pub found_end: bool,
    pub last_expansion_x: i32,
    pub last_expansion_y: i32,
    pub expansion_min_x: i32,
    pub expansion_min_y: i32,
    pub expansion_max_x: i32,
    pub expansion_max_y: i32,
    pub plugged_a_hole: bool,
    pub last_empty_castle_exit_x: i32,
    pub last_empty_castle_exit_y: i32,
}

impl View for Sandrone {
    type V = SandroneModel;

    open spec fn view(&self) -> SandroneModel {
        SandroneModel {
            state: self.state,
            status: self.status_desc@,
            movable: self.movable,
            push_tiles: self.push_tiles@,
            impassable_tiles: self.impassable_tiles@,
            cycle: self.direction_cycle@,
            air_lifting: self.air_lifting,
            air_lifted: self.air_lifted,
            post_castle: self.post_castle,
            tmp: self.tmp,
            last_dx: self.last_dx,
            last_dy: self.last_dy,
            seeking: self.seeking,
            backtracking: self.backtracking,
            found_end: self.found_end,
            last_expansion_x: self.last_expansion_x,
            last_expansion_y: self.last_expansion_y,
            expansion_min_x: self.expansion_min_x,
            expansion_min_y: self.expansion_min_y,
            expansion_max_x: self.expansion_max_x,
            expansion_max_y: self.expansion_max_y,
            plugged_a_hole: self.plugged_a_hole,
            last_empty_castle_exit_x: self.last_empty_castle_exit_x,
            last_empty_castle_exit_y: self.last_empty_castle_exit_y,
        }
    }
}

/// `m` switched to `state`, with that state's status text.
pub open spec fn with_state(m: SandroneModel, state: SandroneState) -> SandroneModel {
    SandroneModel { state, status: sandrone_status(state), ..m }
}

/// `m` moved to `(x, y)`.
pub open spec fn moved_to(m: SandroneModel, p: (int, int)) -> SandroneModel {
    SandroneModel { movable: Movable { x: p.0 as i32, y: p.1 as i32, ..m.movable }, ..m }
}

/// The four unit steps in the order a fresh sandrone tries them: left, up, right, down.
pub open spec fn base_cycle() -> Seq<(i32, i32)> {
    seq![(-1i32, 0i32), (0i32, -1i32), (1i32, 0i32), (0i32, 1i32)]
}

/// The base cycle rotated to start at its `r`-th entry.
pub open spec fn cycle_from(r: int) -> Seq<(i32, i32)> {
    Seq::new(4, |i: int| base_cycle()[(i + r) % 4])
}

/// The position of a unit step in the base cycle.
pub open spec fn step_index(d: (i32, i32)) -> int {
    if d == (-1i32, 0i32) {
        0
    } else if d == (0i32, -1i32) {
        1
    } else if d == (1i32, 0i32) {
        2
    } else {
        3
    }
}

/// One of the four unit steps.
pub open spec fn is_unit_step(dx: int, dy: int) -> bool {
    (dx == -1 && dy == 0) || (dx == 1 && dy == 0) || (dx == 0 && dy == -1) || (dx == 0 && dy == 1)
}

/// The status text that `set_sandrone_state` writes for a state.
pub open spec fn sandrone_status(state: SandroneState) -> Seq<char> {
    match state {
        SandroneState::Unconstructed => SANDRONE_IDLE@,
        SandroneState::WaitingForWater => SANDRONE_WAITING@,
        SandroneState::MovingToOrigin => SANDRONE_TO_ORIGIN@,
        SandroneState::MovingToNeighborCell => SANDRONE_TO_NEIGHBOR@,
        SandroneState::BuildingArrowCell => SANDRONE_BUILDING@,
        SandroneState::PickingUpMiner => SANDRONE_PICKING_UP@,
        SandroneState::DeliveringMiner => SANDRONE_DELIVERING@,
        SandroneState::Redecorating => SANDRONE_REDECORATING@,
    }
}

impl Sandrone {
    /// The direction cycle is a rotation of the base cycle, the last move is a
    /// unit step, and the castle rectangle is not inverted.
    pub open spec fn wf(&self) -> bool {
        &&& exists|r: int| 0 <= r < 4 && self.direction_cycle@ == cycle_from(r)
        &&& is_unit_step(self.last_dx as int, self.last_dy as int)
        &&& self.expansion_min_x <= self.expansion_max_x
        &&& self.expansion_min_y <= self.expansion_max_y
    }
}

/// A new sandrone at the origin, not yet built, facing up.
pub fn create_sandrone() -> (r: Sandrone)
    ensures
        r.wf(),
        r.state == SandroneState::Unconstructed,
        r.status_desc@ == SANDRONE_IDLE@,
        r.movable == (Movable { what: WHAT_SANDRONE, x: 0, y: 0, dir: Direction::Up, disabled: false }),
        r.push_tiles@.len() == 0,
        r.impassable_tiles@.len() == 0,
        r.direction_cycle@ == base_cycle(),
        !r.air_lifting && !r.air_lifted && r.post_castle == 0 && r.tmp == 20,
        r.last_dx == 1 && r.last_dy == 0,
        r.seeking && !r.backtracking && !r.found_end,
        r.last_expansion_x == 0 && r.last_expansion_y == 0,
        r.expansion_min_x == 0 && r.expansion_min_y == 0,
        r.expansion_max_x == 0 && r.expansion_max_y == 0,
        !r.plugged_a_hole,
        r.last_empty_castle_exit_x == 0 && r.last_empty_castle_exit_y == 0,
{
    let mut dc: VecDeque<(i32, i32)> = VecDeque::new();
    dc.push_back((-1, 0));
    dc.push_back((0, -1));
    dc.push_back((1, 0));
    dc.push_back((0, 1));
    let r = Sandrone {
        state: SandroneState::Unconstructed,
        status_desc: String::from_str(SANDRONE_IDLE),
        movable: Movable { what: WHAT_SANDRONE, x: 0, y: 0, dir: Direction::Up, disabled: false },
        push_tiles: Vec::new(),
        impassable_tiles: Vec::new(),
        direction_cycle: dc,
        air_lifting: false,
        air_lifted: false,
        post_castle: 0,
        tmp: 20,
        last_dx: 1,
        last_dy: 0,
        seeking: true,
        backtracking: false,
        found_end: false,
        last_expansion_x: 0,
        last_expansion_y: 0,
        expansion_min_x: 0,
        expansion_min_y: 0,
        expansion_max_x: 0,
        expansion_max_y: 0,
        plugged_a_hole: false,
        last_empty_castle_exit_x: 0,
        last_empty_castle_exit_y: 0,
    };
    assert(r.direction_cycle@ =~= cycle_from(0));
    assert(r.direction_cycle@ =~= base_cycle());
    r
}

fn status_text(state: SandroneState) -> (r: String)
    ensures
        r@ == sandrone_status(state),
{
    match state {
        SandroneState::Unconstructed => String::from_str(SANDRONE_IDLE),
        SandroneState::WaitingForWater => String::from_str(SANDRONE_WAITING),
        SandroneState::MovingToOrigin => String::from_str(SANDRONE_TO_ORIGIN),
        SandroneState::MovingToNeighborCell => String::from_str(SANDRONE_TO_NEIGHBOR),
        SandroneState::BuildingArrowCell => String::from_str(SANDRONE_BUILDING),
        SandroneState::PickingUpMiner => String::from_str(SANDRONE_PICKING_UP),
        SandroneState::DeliveringMiner => String::from_str(SANDRONE_DELIVERING),
        SandroneState::Redecorating => String::from_str(SANDRONE_REDECORATING),
    }
}

/// Switch to `state` and describe it. A sandrone is never switched back to
/// `Unconstructed`.
pub fn set_sandrone_state(sandrone: &mut Sandrone, state: SandroneState)
    requires
        state != SandroneState::Unconstructed,
    ensures
        final(sandrone)@ == with_state(old(sandrone)@, state),
{
    sandrone.status_desc = status_text(state);
    sandrone.state = state;
}

/// The cell shows a push or an impassible tile.
pub open spec fn push_blocked(o: &Options, w: &World, x: int, y: int) -> bool {
    tile_at(o, w, x, y) == Tile::Push || tile_at(o, w, x, y) == Tile::Impassible
}

/// Whether the cell at `(x, y)` shows a push or an impassible tile.
pub fn is_push_impossible_cell(options: &Options, world: &World, x: i32, y: i32) -> (r: bool)
    requires
        world.wf(),
    ensures
        r == push_blocked(options, world, x as int, y as int),
{
    let t = get_cell_tile_at(options, world, x, y);
    t == Tile::Push || t == Tile::Impassible
}

/// An empty cell entered by unit step `(dx, dy)` can become a push cell: none of
/// the five cells around it that do not touch the cell it was entered from is a
/// push or impassible cell, and neither is the cell itself.
pub open spec fn spec_can_empty_cell_be_push_cell(o: &Options, w: &World, tx: int, ty: int, dx: int, dy: int) -> bool {
    let a = push_blocked(o, w, tx - 1, ty - 1);
    let b = push_blocked(o, w, tx, ty - 1);
    let c = push_blocked(o, w, tx + 1, ty - 1);
    let d = push_blocked(o, w, tx - 1, ty);
    let f = push_blocked(o, w, tx + 1, ty);
    let g = push_blocked(o, w, tx - 1, ty + 1);
    let h = push_blocked(o, w, tx, ty + 1);
    let i = push_blocked(o, w, tx + 1, ty + 1);
    if push_blocked(o, w, tx, ty) {
        false
    } else if dx == -1 {
        !b && !a && !d && !g && !h
    } else if dx == 1 {
        !b && !c && !f && !i && !h
    } else if dy == -1 {
        !d && !a && !b && !c && !f
    } else {
        !d && !g && !h && !i && !f
    }
}

/// A coordinate whose neighbours two steps away are representable.
pub open spec fn coord_ok2(x: int, y: int) -> bool {
    i32::MIN + 2 <= x <= i32::MAX - 2 && i32::MIN + 2 <= y <= i32::MAX - 2
}

fn can_empty_cell_be_push_cell(options: &Options, world: &World, tx: i32, ty: i32, dx: i32, dy: i32) -> (r: bool)
    requires
        world.wf(),
        crate::movable::coord_ok(tx, ty),
        is_unit_step(dx as int, dy as int),
    ensures
        r == spec_can_empty_cell_be_push_cell(options, world, tx as int, ty as int, dx as int, dy as int),
{
    let e = is_push_impossible_cell(options, world, tx, ty);
    if e {
        return false;
    }
    let a = is_push_impossible_cell(options, world, tx - 1, ty - 1);
    let b = is_push_impossible_cell(options, world, tx, ty - 1);
    let c = is_push_impossible_cell(options, world, tx + 1, ty - 1);
    let d = is_push_impossible_cell(options, world, tx - 1, ty);
    let f = is_push_impossible_cell(options, world, tx + 1, ty);
    let g = is_push_impossible_cell(options, world, tx - 1, ty + 1);
    let h = is_push_impossible_cell(options, world, tx, ty + 1);
    let i = is_push_impossible_cell(options, world, tx + 1, ty + 1);
    if dx == -1 {
        !b && !a && !d && !g && !h
    } else if dx == 1 {
        !b && !c && !f && !i && !h
    } else if dy == -1 {
        !d && !a && !b && !c && !f
    } else {
        !d && !g && !h && !i && !f
    }
}

/// Whether the miner may fill the empty cell `(x, y)` that borders the magic wall
/// (the castle rectangle `magic_min_x..=magic_max_x` by `magic_min_y..=magic_max_y`)
/// without cutting off the way out. Outside the rectangle counts as blocked.
pub open spec fn spec_can_fill_at_magic_wall(o: &Options, w: &World, x: int, y: int, min_x: int, min_y: int, max_x: int, max_y: int) -> bool {
    let a = push_blocked(o, w, x - 1, y - 1) || x - 1 < min_x || y - 1 < min_y;
    let b = push_blocked(o, w, x, y - 1) || y - 1 < min_y;
    let c = push_blocked(o, w, x + 1, y - 1) || x + 1 > max_x || y - 1 < min_y;
    let d = push_blocked(o, w, x - 1, y) || x - 1 < min_x;
    let f = push_blocked(o, w, x + 1, y) || x + 1 > max_x;
    let g = push_blocked(o, w, x - 1, y + 1) || x - 1 < min_x || y + 1 > max_y;
    let h = push_blocked(o, w, x, y + 1) || y + 1 > max_y;
    let i = push_blocked(o, w, x + 1, y + 1) || x + 1 > max_x || y + 1 > max_y;
    if x == 0 && y - 1 < min_y {
        false
    } else if push_blocked(o, w, x, y) {
        false
    } else if y - 1 < min_y {
        if x - 1 < min_x {
            !i || f || h
        } else if x + 1 > max_x {
            !g || d || h
        } else if d {
            f || h || !i
        } else if f {
            h || !g
        } else {
            false
        }
    } else if y + 1 > max_y {
        if x - 1 < min_x {
            !c || f || b
        } else if x + 1 > max_x {
            !a || d || b
        } else if d {
            f || b || !c
        } else if f {
            b || !a
        } else {
            false
        }
    } else if x - 1 < min_x {
        if b {
            h || f || !i
        } else if h {
            f || !c
        } else {
            false
        }
    } else if x + 1 > max_x {
        if b {
            h || d || !g
        } else if h {
            d || !a
        } else {
            false
        }
    } else {
        false
    }
}

/// Whether the miner may fill the cell `(x, y)` next to the magic wall (see
/// `spec_can_fill_at_magic_wall`).
pub fn can_magic_wall_bordering_empty_cell_be_push_cell(
    options: &Options,
    world: &World,
    x: i32,
    y: i32,
    magic_min_x: i32,
    magic_min_y: i32,
    magic_max_x: i32,
    magic_max_y: i32,
) -> (r: bool)
    requires
        world.wf(),
        crate::movable::coord_ok(x, y),
    ensures
        r == spec_can_fill_at_magic_wall(options, world, x as int, y as int, magic_min_x as int, magic_min_y as int, magic_max_x as int, magic_max_y as int),
{
    if x == 0 && y - 1 < magic_min_y {
        return false;
    }
    let e = is_push_impossible_cell(options, world, x, y);
    if e {
        return false;
    }
    let a = is_push_impossible_cell(options, world, x - 1, y - 1) || x - 1 < magic_min_x || y - 1 < magic_min_y;
    let b = is_push_impossible_cell(options, world, x, y - 1) || y - 1 < magic_min_y;
    let c = is_push_impossible_cell(options, world, x + 1, y - 1) || x + 1 > magic_max_x || y - 1 < magic_min_y;
    let d = is_push_impossible_cell(options, world, x - 1, y) || x - 1 < magic_min_x;
    let f = is_push_impossible_cell(options, world, x + 1, y) || x + 1 > magic_max_x;
    let g = is_push_impossible_cell(options, world, x - 1, y + 1) || x - 1 < magic_min_x || y + 1 > magic_max_y;
    let h = is_push_impossible_cell(options, world, x, y + 1) || y + 1 > magic_max_y;
    let i = is_push_impossible_cell(options, world, x + 1, y + 1) || x + 1 > magic_max_x || y + 1 > magic_max_y;
    if y - 1 < magic_min_y {
        if x - 1 < magic_min_x {
            return !i || f || h;
        } else if x + 1 > magic_max_x {
            return !g || d || h;
        } else {
            if d {
                if f {
                    return true;
                }
                return !f && (h || !i);
            } else if f {
                return h || !g;
            }
        }
        return false;
    }
    if y + 1 > magic_max_y {
        if x - 1 < magic_min_x {
            return !c || f || b;
        } else if x + 1 > magic_max_x {
            return !a || d || b;
        } else {
            if d {
                if f {
                    return true;
                }
                return !f && (b || !c);
            } else if f {
                return b || !a;
            }
        }
        return false;
    }
    if x - 1 < magic_min_x {
        if b {
            if h {
                return true;
            }
            return !h && (f || !i);
        } else if h {
            return f || !c;
        }
        return false;
    }
    if x + 1 > magic_max_x {
        if b {
            if h {
                return true;
            }
            return !h && (d || !g);
        } else if h {
            return d || !a;
        }
        return false;
    }
    false
}

/// The sandrone may step onto `(tx, ty)`: a push cell, or an empty cell that can
/// become one.
pub open spec fn spec_sandrone_can_move_to(o: &Options, w: &World, tx: int, ty: int, dx: int, dy: int) -> bool {
    tile_at(o, w, tx, ty) == Tile::Push || (tile_at(o, w, tx, ty) == Tile::Empty
        && spec_can_empty_cell_be_push_cell(o, w, tx, ty, dx, dy))
}

/// Whether the sandrone may step onto `(tx, ty)` (see `spec_sandrone_can_move_to`).
pub fn sandrone_can_move_to(options: &Options, world: &World, tx: i32, ty: i32, dx: i32, dy: i32) -> (r: bool)
    requires
        world.wf(),
        crate::movable::coord_ok(tx, ty),
        is_unit_step(dx as int, dy as int),
    ensures
        r == spec_sandrone_can_move_to(options, world, tx as int, ty as int, dx as int, dy as int),
{
    match get_cell_tile_at(options, world, tx, ty) {
        Tile::Push => true,
        Tile::Empty => can_empty_cell_be_push_cell(options, world, tx, ty, dx, dy),
        _ => false,
    }
}

/// The cell `(tx, ty)` can be converted to a push cell: it is empty, holds no
/// pickup, and can become a push cell.
pub open spec fn spec_can_convert_tile_to_push(o: &Options, w: &World, tx: int, ty: int, dx: int, dy: int) -> bool {
    tile_at(o, w, tx, ty) == Tile::Empty && stuff_at(o, w, tx, ty).1 == Pickup::Nothing
        && spec_can_empty_cell_be_push_cell(o, w, tx, ty, dx, dy)
}

/// Whether the cell `(tx, ty)` can be converted to a push cell.
pub fn can_convert_tile_to_push(options: &Options, world: &World, tx: i32, ty: i32, dx: i32, dy: i32, _sandrone: &Sandrone) -> (r: bool)
    requires
        world.wf(),
        crate::movable::coord_ok(tx, ty),
        is_unit_step(dx as int, dy as int),
    ensures
        r == spec_can_convert_tile_to_push(options, world, tx as int, ty as int, dx as int, dy as int),
{
    get_cell_tile_at(options, world, tx, ty) == Tile::Empty && get_cell_stuff_at(options, world, tx, ty).1 == Pickup::Nothing
        && can_empty_cell_be_push_cell(options, world, tx, ty, dx, dy)
}

/// Whether the cell `(tx, ty)` shows a push tile.
pub fn is_push_cell(options: &Options, world: &World, tx: i32, ty: i32) -> (r: bool)
    requires
        world.wf(),
    ensures
        r == (tile_at(options, world, tx as int, ty as int) == Tile::Push),
{
    get_cell_tile_at(options, world, tx, ty) == Tile::Push
}

/// `v` towards `to` by one step, as an integer.
pub open spec fn step_towards(v: int, to: int) -> int {
    if to - v < 0 {
        v - 1
    } else {
        v + 1
    }
}

/// One step of a drone flying straight towards `(to_x, to_y)`: along the axis
/// with the larger distance, along y on a tie; no step once there.
pub open spec fn fly_step(x: int, y: int, to_x: int, to_y: int) -> (int, int) {
    if x == to_x && y == to_y {
        (x, y)
    } else if crate::tile::abs(to_x - x) > crate::tile::abs(to_y - y) {
        (step_towards(x, to_x), y)
    } else {
        (x, step_towards(y, to_y))
    }
}

/// Move the sandrone one step towards `(to_x, to_y)`. Returns whether it was
/// already there (and then does not move).
pub fn move_sandrone_towards(sandrone: &mut Sandrone, to_x: i32, to_y: i32, _biome_index: usize) -> (r: bool)
    ensures
        r == (old(sandrone).movable.x == to_x && old(sandrone).movable.y == to_y),
        (final(sandrone).movable.x as int, final(sandrone).movable.y as int) == fly_step(
            old(sandrone).movable.x as int,
            old(sandrone).movable.y as int,
            to_x as int,
            to_y as int,
        ),
        final(sandrone)@ == moved_to(old(sandrone)@, fly_step(
            old(sandrone).movable.x as int,
            old(sandrone).movable.y as int,
            to_x as int,
            to_y as int,
        )),
{
    let bx = sandrone.movable.x;
    let by = sandrone.movable.y;
    if bx == to_x && by == to_y {
        return true;
    }
    let dx: i64 = to_x as i64 - bx as i64;
    let dy: i64 = to_y as i64 - by as i64;
    let adx: i64 = if dx < 0 { -dx } else { dx };
    let ady: i64 = if dy < 0 { -dy } else { dy };
    if adx > ady {
        sandrone.movable.x = if dx < 0 { bx - 1 } else { bx + 1 };
    } else {
        sandrone.movable.y = if dy < 0 { by - 1 } else { by + 1 };
    }
    false
}


/// What one tick of the sandrone does besides changing the sandrone itself.
pub struct SandroneTick {
    pub sandrone: SandroneModel,
    /// The cells written, in order.
    pub edits: Seq<(int, int, CellEdit)>,
    /// The miner's sand afterwards.
    pub sand: u32,
    /// The miner is carried along: it ends up where the sandrone is.
    pub carries_miner: bool,
    /// The miner is set free to move again.
    pub frees_miner: bool,
    /// Stepping by hand is switched on.
    pub return_to_move: bool,
    /// Painting is switched on.
    pub visual: bool,
}

/// A tick that only changes the sandrone.
pub open spec fn quiet_tick(m: SandroneModel, sand: u32) -> SandroneTick {
    SandroneTick {
        sandrone: m,
        edits: Seq::empty(),
        sand,
        carries_miner: false,
        frees_miner: false,
        return_to_move: false,
        visual: false,
    }
}

/// The direction cycle rotated so that the last move comes second.
pub open spec fn aligned_cycle(m: SandroneModel) -> Seq<(i32, i32)> {
    cycle_from((step_index((m.last_dx, m.last_dy)) + 3) % 4)
}

/// The first index from `k` on whose neighbour can be converted to a push cell.
pub open spec fn first_convertible(o: &Options, w: &World, fx: int, fy: int, cyc: Seq<(i32, i32)>, tmp: u32, k: int) -> Option<int>
    decreases 4 - k,
{
    if k >= 4 {
        None
    } else if tmp > 0 && spec_can_convert_tile_to_push(o, w, fx + cyc[k].0, fy + cyc[k].1, cyc[k].0 as int, cyc[k].1 as int) {
        Some(k)
    } else {
        first_convertible(o, w, fx, fy, cyc, tmp, k + 1)
    }
}

/// The first index from `k` on whose neighbour shows a push tile once `edits` are applied.
pub open spec fn first_push(o: &Options, w: &World, edits: Seq<(int, int, CellEdit)>, fx: int, fy: int, cyc: Seq<(i32, i32)>, k: int) -> Option<int>
    decreases 4 - k,
{
    if k >= 4 {
        None
    } else if edited_tile(o, w, edits, fx + cyc[k].0, fy + cyc[k].1) == Tile::Push {
        Some(k)
    } else {
        first_push(o, w, edits, fx, fy, cyc, k + 1)
    }
}

/// Whether the sandrone, done building, should fetch the miner: it has not done
/// so yet, the castle tick is not the largest `u32`, and it is not already on its way.
pub open spec fn may_fetch_miner(m: SandroneModel) -> bool {
    !m.air_lifted && m.post_castle != 0xffff_ffff && !m.air_lifting
}

/// The cell that closes an end of the castle next to `(fx, fy)`, if any.
pub open spec fn plug_target(m: SandroneModel, fx: int, fy: int) -> Option<(int, int)> {
    if fx - 1 == m.expansion_min_x {
        Some((fx - 1, fy))
    } else if fx + 1 == m.expansion_max_x {
        Some((fx + 1, fy))
    } else if fy - 1 == m.expansion_min_y {
        Some((fx, fy - 1))
    } else if fy + 1 == m.expansion_max_y {
        Some((fx, fy + 1))
    } else {
        None
    }
}

/// Waiting for sand: take off once there are ten.
pub open spec fn tick_waiting(m: SandroneModel, sand: u32) -> SandroneTick {
    if sand >= 10 {
        quiet_tick(with_state(m, SandroneState::MovingToOrigin), sand)
    } else {
        quiet_tick(m, sand)
    }
}

/// Flying to the origin: once there, make it the first push cell.
pub open spec fn tick_to_origin(m: SandroneModel, sand: u32) -> SandroneTick {
    let x = m.movable.x as int;
    let y = m.movable.y as int;
    if x == 0 && y == 0 {
        let m1 = with_state(SandroneModel { push_tiles: m.push_tiles.push((0i32, 0i32)), ..m }, SandroneState::MovingToNeighborCell);
        let lift = may_fetch_miner(m) && m.push_tiles.len() + 1 > 1000;
        let m2 = if lift {
            SandroneModel { air_lifting: true, ..with_state(m1, SandroneState::PickingUpMiner) }
        } else {
            m1
        };
        SandroneTick { edits: seq![(0int, 0int, CellEdit::Tile(Tile::Push))], ..quiet_tick(m2, sand) }
    } else {
        quiet_tick(moved_to(m, fly_step(x, y, 0, 0)), sand)
    }
}

/// Moving along the castle. After the castle is done, step onto a soil cell
/// and start redecorating. Otherwise expand into the first convertible
/// neighbour, or else walk over push cells (see `walk_castle`).
pub open spec fn tick_neighbor(m: SandroneModel, sand: u32, o: &Options, w: &World) -> SandroneTick {
    if m.post_castle > 0 {
        enter_redecorating(m, sand, o, w)
    } else {
        let fx = m.movable.x as int;
        let fy = m.movable.y as int;
        let cyc = aligned_cycle(m);
        let bt = if sand < 10 {
            true
        } else if m.last_expansion_x == fx && m.last_expansion_y == fy {
            false
        } else {
            m.backtracking
        };
        let m1 = SandroneModel { cycle: cyc, backtracking: bt, ..m };
        let found = if !bt && sand >= 10 && !m.found_end {
            first_convertible(o, w, fx, fy, cyc, m.tmp, 0)
        } else {
            None
        };
        match found {
            Some(k) => {
                let d = cyc[k];
                quiet_tick(
                    SandroneModel {
                        last_dx: d.0,
                        last_dy: d.1,
                        seeking: false,
                        ..with_state(moved_to(m1, (fx + d.0, fy + d.1)), SandroneState::BuildingArrowCell)
                    },
                    sand,
                )
            },
            None => walk_castle(m1, sand, o, w),
        }
    }
}

/// The castle is done: step onto a neighbouring soil cell and redecorate.
pub open spec fn enter_redecorating(m: SandroneModel, sand: u32, o: &Options, w: &World) -> SandroneTick {
    let fx = m.movable.x as int;
    let fy = m.movable.y as int;
    let m1 = with_state(m, SandroneState::Redecorating);
    if tile_at(o, w, fx, fy - 1) == Tile::Soil {
        quiet_tick(moved_to(m1, (fx, fy - 1)), sand)
    } else if tile_at(o, w, fx - 1, fy - 1) == Tile::Soil {
        quiet_tick(moved_to(m1, (fx + 1, fy + 1)), sand)
    } else if tile_at(o, w, fx - 1, fy) == Tile::Soil {
        quiet_tick(moved_to(m1, (fx + 1, fy)), sand)
    } else {
        SandroneTick { return_to_move: true, ..quiet_tick(m1, sand) }
    }
}

/// Nothing to expand into: after an expansion, start seeking again (and fetch
/// the miner once the castle has enough push cells); once the miner was
/// delivered, close an end of the castle with an impassible cell; then step onto
/// the first neighbouring push cell.
pub open spec fn walk_castle(m: SandroneModel, sand: u32, o: &Options, w: &World) -> SandroneTick {
    let fx = m.movable.x as int;
    let fy = m.movable.y as int;
    let cyc = m.cycle;
    let m1 = seek_again(m, o);
    let edits = plug_edits(m);
    let m2 = plugged(m1, m);
    let m3 = match first_push(o, w, edits, fx, fy, cyc, 0) {
        Some(k) => SandroneModel { last_dx: cyc[k].0, last_dy: cyc[k].1, ..moved_to(m2, (fx + cyc[k].0, fy + cyc[k].1)) },
        None => m2,
    };
    SandroneTick { edits, ..quiet_tick(m3, sand) }
}

/// Seeking again: after an expansion, fetch the miner once the castle has more
/// push cells than the pickup count.
pub open spec fn seek_again(m: SandroneModel, o: &Options) -> SandroneModel {
    let lift = !m.seeking && may_fetch_miner(m) && m.push_tiles.len() > o.sandrone_pickup_count;
    let m1 = if lift {
        SandroneModel { air_lifting: true, found_end: true, backtracking: true, ..with_state(m, SandroneState::PickingUpMiner) }
    } else {
        m
    };
    SandroneModel { seeking: true, ..m1 }
}

/// The cell closing an end of the castle, once the miner was delivered.
pub open spec fn plug_at(m: SandroneModel) -> Option<(int, int)> {
    if m.air_lifted && !m.plugged_a_hole {
        plug_target(m, m.movable.x as int, m.movable.y as int)
    } else {
        None
    }
}

/// The write that closes an end of the castle, if any.
pub open spec fn plug_edits(m: SandroneModel) -> Seq<(int, int, CellEdit)> {
    match plug_at(m) {
        Some(p) => seq![(p.0, p.1, CellEdit::Tile(Tile::Impassible))],
        None => Seq::empty(),
    }
}

/// `m1` after closing the end of the castle that `m` points at, if any.
pub open spec fn plugged(m1: SandroneModel, m: SandroneModel) -> SandroneModel {
    match plug_at(m) {
        Some(p) => SandroneModel {
            plugged_a_hole: true,
            impassable_tiles: m1.impassable_tiles.push((p.0 as i32, p.1 as i32)),
            ..m1
        },
        None => m1,
    }
}

/// `v` rounded down by ten the way the castle spends sand: below ten, and from
/// `2^31` on, nothing is left.
pub open spec fn sand_after_build(v: u32) -> u32 {
    if 10 <= v && v < 0x8000_0000 {
        (v - 10) as u32
    } else {
        0
    }
}

/// The castle rectangle after a push cell at `(x, y)`: it grows to keep one cell
/// of room around the push cells on the low side, and on the high side unless
/// the low side already grew.
pub open spec fn grown_rect(m: SandroneModel, x: int, y: int) -> (int, int, int, int) {
    let min_x = if x <= m.expansion_min_x { x - 1 } else { m.expansion_min_x as int };
    let max_x = if x <= m.expansion_min_x { m.expansion_max_x as int } else if x >= m.expansion_max_x { x + 1 } else { m.expansion_max_x as int };
    let min_y = if y <= m.expansion_min_y { y - 1 } else { m.expansion_min_y as int };
    let max_y = if y <= m.expansion_min_y { m.expansion_max_y as int } else if y >= m.expansion_max_y { y + 1 } else { m.expansion_max_y as int };
    (min_x, min_y, max_x, max_y)
}

/// The area of a rectangle `(min_x, min_y, max_x, max_y)`, as the castle measures it.
#[verifier::opaque]
pub open spec fn rect_area(r: (int, int, int, int)) -> int {
    (r.2 - r.0) * (r.3 - r.1)
}

/// Building: turn the current cell into a push cell, grow the castle rectangle,
/// spend ten sand; once the castle area is at least the limit, stop building and
/// go fetch the miner.
pub open spec fn tick_build(m: SandroneModel, sand: u32, o: &Options) -> SandroneTick {
    let x = m.movable.x;
    let y = m.movable.y;
    let r = grown_rect(m, x as int, y as int);
    let m1 = with_state(
        SandroneModel {
            last_expansion_x: x,
            last_expansion_y: y,
            expansion_min_x: r.0 as i32,
            expansion_min_y: r.1 as i32,
            expansion_max_x: r.2 as i32,
            expansion_max_y: r.3 as i32,
            push_tiles: m.push_tiles.push((x, y)),
            ..m
        },
        SandroneState::MovingToNeighborCell,
    );
    let done = rect_area(r) >= o.sandcastle_area_limit;
    let m2 = if done {
        let d = SandroneModel { status: SANDRONE_CASTLE_DONE@, found_end: true, seeking: false, backtracking: false, ..m1 };
        if !m.air_lifted && m.post_castle != 0xffff_ffff {
            SandroneModel { air_lifting: true, backtracking: true, ..with_state(d, SandroneState::PickingUpMiner) }
        } else {
            d
        }
    } else {
        m1
    };
    SandroneTick {
        edits: seq![(x as int, y as int, CellEdit::Tile(Tile::Push))],
        visual: done,
        ..quiet_tick(m2, sand_after_build(sand))
    }
}

/// Flying to the miner at `(mx, my)`; once there, carry it home.
pub open spec fn tick_pickup(m: SandroneModel, sand: u32, mx: int, my: int) -> SandroneTick {
    let x = m.movable.x as int;
    let y = m.movable.y as int;
    if x == mx && y == my {
        quiet_tick(with_state(m, SandroneState::DeliveringMiner), sand)
    } else {
        quiet_tick(moved_to(m, fly_step(x, y, mx, my)), sand)
    }
}

/// Carrying the miner to the origin; once there, set it free and go back to the castle.
pub open spec fn tick_deliver(m: SandroneModel, sand: u32) -> SandroneTick {
    let x = m.movable.x as int;
    let y = m.movable.y as int;
    if x == 0 && y == 0 {
        SandroneTick {
            carries_miner: true,
            frees_miner: true,
            ..quiet_tick(
                SandroneModel {
                    state: SandroneState::MovingToNeighborCell,
                    status: SANDRONE_BACK_HOME@,
                    air_lifting: false,
                    air_lifted: true,
                    ..m
                },
                sand,
            )
        }
    } else {
        SandroneTick { carries_miner: true, ..quiet_tick(moved_to(m, fly_step(x, y, 0, 0)), sand) }
    }
}

/// A way the redecorating sandrone can go: the cell it steps onto, the cell a
/// push tile is pushed to (when pushing), the value of the cell stepped onto,
/// and whether it pushes.
pub type Way = (i32, i32, i32, i32, u32, bool);

/// The way in direction `(dx, dy)`: onto a soil cell inside the castle, or
/// pushing the cell there onto a soil cell behind it, strictly inside.
pub open spec fn way_towards(m: SandroneModel, o: &Options, w: &World, dx: int, dy: int) -> Seq<Way> {
    let fx = m.movable.x as int;
    let fy = m.movable.y as int;
    let (nx, ny, px, py) = (fx + dx, fy + dy, fx + 2 * dx, fy + 2 * dy);
    let inside_axis = if dx == -1 { nx >= m.expansion_min_x } else if dx == 1 { nx <= m.expansion_max_x } else if dy == -1 { ny >= m.expansion_min_y } else { ny <= m.expansion_max_y };
    let push_axis = if dx == -1 { px > m.expansion_min_x } else if dx == 1 { px < m.expansion_max_x } else if dy == -1 { py > m.expansion_min_y } else { py < m.expansion_max_y };
    let v = w.stored(nx, ny).tile_value;
    if !inside_axis {
        Seq::empty()
    } else if tile_at(o, w, nx, ny) == Tile::Soil {
        seq![(nx as i32, ny as i32, 0i32, 0i32, v, false)]
    } else if push_axis && tile_at(o, w, px, py) == Tile::Soil {
        seq![(nx as i32, ny as i32, px as i32, py as i32, v, true)]
    } else {
        Seq::empty()
    }
}

/// The ways, tried left, up, right, down.
pub open spec fn redecorate_ways(m: SandroneModel, o: &Options, w: &World) -> Seq<Way> {
    way_towards(m, o, w, -1, 0) + way_towards(m, o, w, 0, -1) + way_towards(m, o, w, 1, 0) + way_towards(m, o, w, 0, 1)
}

/// Scanning the first `n` ways, starting from the last one: a way replaces the
/// pick when its value is strictly lower.
pub open spec fn pick_way(ways: Seq<Way>, n: int) -> Way
    decreases n,
{
    if n <= 0 {
        ways.last()
    } else {
        let best = pick_way(ways, n - 1);
        if ways[n - 1].4 < best.4 {
            ways[n - 1]
        } else {
            best
        }
    }
}

/// Redecorating: take the way with the lowest value (see `pick_way`), count the
/// visit on that cell, and push the wall along when the way pushes.
pub open spec fn tick_redecorate(m: SandroneModel, sand: u32, o: &Options, w: &World) -> SandroneTick {
    let ways = redecorate_ways(m, o, w);
    let p = pick_way(ways, ways.len() - 1);
    let e1 = seq![(p.0 as int, p.1 as int, CellEdit::Value((p.4 + 1) as u32))];
    let edits = if p.5 {
        e1 + seq![(p.0 as int, p.1 as int, CellEdit::Tile(Tile::Soil)), (p.2 as int, p.3 as int, CellEdit::Tile(Tile::Push))]
    } else {
        e1
    };
    SandroneTick { edits, ..quiet_tick(moved_to(m, (p.0 as int, p.1 as int)), sand) }
}

/// One tick of the sandrone, by state.
#[verifier::opaque]
pub open spec fn sandrone_tick(m: SandroneModel, mx: int, my: int, sand: u32, o: &Options, w: &World) -> SandroneTick {
    match m.state {
        SandroneState::Unconstructed => quiet_tick(m, sand),
        SandroneState::WaitingForWater => tick_waiting(m, sand),
        SandroneState::MovingToOrigin => tick_to_origin(m, sand),
        SandroneState::MovingToNeighborCell => tick_neighbor(m, sand, o, w),
        SandroneState::BuildingArrowCell => tick_build(m, sand, o),
        SandroneState::PickingUpMiner => tick_pickup(m, sand, mx, my),
        SandroneState::DeliveringMiner => tick_deliver(m, sand),
        SandroneState::Redecorating => tick_redecorate(m, sand, o, w),
    }
}

/// The inputs on which a tick runs without overflow, out-of-range reads or
/// writes outside the stored world.
#[verifier::opaque]
pub open spec fn sandrone_tick_ok(m: SandroneModel, mx: int, my: int, sand: u32, o: &Options, w: &World) -> bool {
    let fx = m.movable.x as int;
    let fy = m.movable.y as int;
    &&& w.wf()
    &&& edits_in_bounds(w, sandrone_tick(m, mx, my, sand, o, w).edits)
    &&& (m.state == SandroneState::MovingToNeighborCell ==> if m.post_castle > 0 { crate::movable::coord_ok(fx as i32, fy as i32) } else { coord_ok2(fx, fy) })
    &&& (m.state == SandroneState::BuildingArrowCell ==> {
        &&& crate::movable::coord_ok(fx as i32, fy as i32)
        &&& !(0x8000_0000 <= sand < 0x8000_000a)
        &&& grown_rect(m, fx, fy).2 - grown_rect(m, fx, fy).0 <= i32::MAX
        &&& grown_rect(m, fx, fy).3 - grown_rect(m, fx, fy).1 <= i32::MAX
        &&& rect_area(grown_rect(m, fx, fy)) <= i32::MAX
    })
    &&& (m.state == SandroneState::Redecorating ==> {
        let ways = redecorate_ways(m, o, w);
        &&& coord_ok2(fx, fy)
        &&& ways.len() > 0
        &&& forall|i: int| 0 <= i < ways.len() ==> w.in_bounds(#[trigger] ways[i].0 as int, ways[i].1 as int)
        &&& pick_way(ways, ways.len() - 1).4 < u32::MAX
    })
}


/// Rotate the direction cycle until the last move comes second.
fn align_cycle(s: &mut Sandrone)
    requires
        old(s).wf(),
    ensures
        final(s)@ == (SandroneModel { cycle: aligned_cycle(old(s)@), ..old(s)@ }),
{
    let ghost k = step_index((s.last_dx, s.last_dy));
    let ghost mut r: int = choose|r: int| 0 <= r < 4 && s.direction_cycle@ == cycle_from(r);
    assert(0 <= k < 4);
    while !(s.direction_cycle[1].0 == s.last_dx && s.direction_cycle[1].1 == s.last_dy)
        invariant
            0 <= r < 4,
            k == step_index((s.last_dx, s.last_dy)),
            is_unit_step(s.last_dx as int, s.last_dy as int),
            s.direction_cycle@ == cycle_from(r),
            s@ == (SandroneModel { cycle: s.direction_cycle@, ..old(s)@ }),
        decreases (r - k + 5) % 4,
    {
        assert((r - k + 5) % 4 != 0) by {
            if r == (k + 3) % 4 {
                assert(cycle_from(r)[1] == base_cycle()[k]);
            }
        }
        let last = s.direction_cycle.pop_back();
        match last {
            Some(v) => {
                s.direction_cycle.push_front(v);
            },
            None => {},
        }
        proof {
            let r2 = (r + 3) % 4;
            assert(s.direction_cycle@ =~= cycle_from(r2)) by {
                if r == 0 {} else if r == 1 {} else if r == 2 {} else {}
            }
            r = r2;
        }
    }
    proof {
        let want = (k + 3) % 4;
        if r != want {
            assert(cycle_from(r)[1] == base_cycle()[(1 + r) % 4]);
            assert(base_cycle()[(1 + r) % 4] != base_cycle()[k]);
        }
        assert(s.direction_cycle@ =~= aligned_cycle(old(s)@));
    }
}

/// Whether every step of a cycle is a unit step.
proof fn lemma_cycle_steps(r: int)
    requires
        0 <= r < 4,
    ensures
        forall|k: int| 0 <= k < 4 ==> is_unit_step(#[trigger] cycle_from(r)[k].0 as int, cycle_from(r)[k].1 as int),
        cycle_from(r).len() == 4,
{
}

fn find_convertible(options: &Options, world: &World, fx: i32, fy: i32, cycle: &VecDeque<(i32, i32)>, tmp: u32, s: &Sandrone) -> (r: Option<usize>)
    requires
        world.wf(),
        coord_ok2(fx as int, fy as int),
        exists|q: int| 0 <= q < 4 && cycle@ == cycle_from(q),
    ensures
        (match r { Some(k) => Some(k as int), None => None::<int> }) == first_convertible(options, world, fx as int, fy as int, cycle@, tmp, 0),
        r is Some ==> r->0 < 4,
{
    let ghost q = choose|q: int| 0 <= q < 4 && cycle@ == cycle_from(q);
    proof { lemma_cycle_steps(q); }
    let mut k: usize = 0;
    while k < 4
        invariant
            k <= 4,
            world.wf(),
            coord_ok2(fx as int, fy as int),
            cycle@ == cycle_from(q),
            0 <= q < 4,
            forall|j: int| 0 <= j < 4 ==> is_unit_step(#[trigger] cycle_from(q)[j].0 as int, cycle_from(q)[j].1 as int),
            first_convertible(options, world, fx as int, fy as int, cycle@, tmp, 0) == first_convertible(options, world, fx as int, fy as int, cycle@, tmp, k as int),
        decreases 4 - k,
    {
        let (dx, dy) = cycle[k];
        assert(is_unit_step(cycle@[k as int].0 as int, cycle@[k as int].1 as int));
        if tmp > 0 && can_convert_tile_to_push(options, world, fx + dx, fy + dy, dx, dy, s) {
            return Some(k);
        }
        k = k + 1;
    }
    None
}

fn find_push(options: &Options, world: &World, fx: i32, fy: i32, cycle: &VecDeque<(i32, i32)>, Ghost(w0): Ghost<World>, Ghost(edits): Ghost<Seq<(int, int, CellEdit)>>) -> (r: Option<usize>)
    requires
        world_edited(&w0, world, edits),
        coord_ok2(fx as int, fy as int),
        exists|q: int| 0 <= q < 4 && cycle@ == cycle_from(q),
    ensures
        (match r { Some(k) => Some(k as int), None => None::<int> }) == first_push(options, &w0, edits, fx as int, fy as int, cycle@, 0),
        r is Some ==> r->0 < 4,
{
    let ghost q = choose|q: int| 0 <= q < 4 && cycle@ == cycle_from(q);
    proof { lemma_cycle_steps(q); }
    let mut k: usize = 0;
    while k < 4
        invariant
            k <= 4,
            world_edited(&w0, world, edits),
            coord_ok2(fx as int, fy as int),
            cycle@ == cycle_from(q),
            0 <= q < 4,
            forall|j: int| 0 <= j < 4 ==> is_unit_step(#[trigger] cycle_from(q)[j].0 as int, cycle_from(q)[j].1 as int),
            first_push(options, &w0, edits, fx as int, fy as int, cycle@, 0) == first_push(options, &w0, edits, fx as int, fy as int, cycle@, k as int),
        decreases 4 - k,
    {
        let (dx, dy) = cycle[k];
        assert(is_unit_step(cycle@[k as int].0 as int, cycle@[k as int].1 as int));
        proof { lemma_edited_tile(options, &w0, world, edits, (fx + dx) as int, (fy + dy) as int); }
        if is_push_cell(options, world, fx + dx, fy + dy) {
            return Some(k);
        }
        k = k + 1;
    }
    None
}


fn san_enter_redecorating(sandrone: &mut Sandrone, world: &World, options: &mut Options)
    requires
        old(sandrone).wf(),
        world.wf(),
        old(sandrone).state == SandroneState::MovingToNeighborCell,
        crate::movable::coord_ok(old(sandrone).movable.x, old(sandrone).movable.y),
    ensures
        final(sandrone).wf(),
        final(sandrone)@ == enter_redecorating(old(sandrone)@, 0, old(options), world).sandrone,
        *final(options) == (Options {
            return_to_move: old(options).return_to_move || enter_redecorating(old(sandrone)@, 0, old(options), world).return_to_move,
            ..*old(options)
        }),
{
    let fx = sandrone.movable.x;
    let fy = sandrone.movable.y;
    set_sandrone_state(sandrone, SandroneState::Redecorating);
    if get_cell_tile_at(options, world, fx, fy - 1) == Tile::Soil {
        sandrone.movable.y = fy - 1;
    } else if get_cell_tile_at(options, world, fx - 1, fy - 1) == Tile::Soil {
        sandrone.movable.x = fx + 1;
        sandrone.movable.y = fy + 1;
    } else if get_cell_tile_at(options, world, fx - 1, fy) == Tile::Soil {
        sandrone.movable.x = fx + 1;
    } else {
        options.return_to_move = true;
    }
}

fn san_seek_again(sandrone: &mut Sandrone, options: &Options)
    requires
        old(sandrone).wf(),
    ensures
        final(sandrone).wf(),
        final(sandrone)@ == seek_again(old(sandrone)@, options),
{
    if !sandrone.seeking && !sandrone.air_lifted && sandrone.post_castle != 0xffff_ffff && !sandrone.air_lifting
        && sandrone.push_tiles.len() > options.sandrone_pickup_count as usize {
        set_sandrone_state(sandrone, SandroneState::PickingUpMiner);
        sandrone.air_lifting = true;
        sandrone.backtracking = true;
        sandrone.found_end = true;
    }
    sandrone.seeking = true;
}

fn san_plug(sandrone: &mut Sandrone, world: &mut World, options: &Options, Ghost(m): Ghost<SandroneModel>)
    requires
        old(sandrone).wf(),
        old(world).wf(),
        m.air_lifted == old(sandrone).air_lifted,
        m.plugged_a_hole == old(sandrone).plugged_a_hole,
        m.movable == old(sandrone).movable,
        m.expansion_min_x == old(sandrone).expansion_min_x,
        m.expansion_min_y == old(sandrone).expansion_min_y,
        m.expansion_max_x == old(sandrone).expansion_max_x,
        m.expansion_max_y == old(sandrone).expansion_max_y,
        coord_ok2(old(sandrone).movable.x as int, old(sandrone).movable.y as int),
        edits_in_bounds(old(world), plug_edits(m)),
    ensures
        final(sandrone).wf(),
        final(sandrone)@ == plugged(old(sandrone)@, m),
        world_edited(old(world), final(world), plug_edits(m)),
{
    let ghost w0 = *world;
    proof {
        lemma_world_edited_none(world);
    }
    let fx = sandrone.movable.x;
    let fy = sandrone.movable.y;
    if sandrone.air_lifted && !sandrone.plugged_a_hole {
        let mut target: Option<(i32, i32)> = None;
        if fx - 1 == sandrone.expansion_min_x {
            target = Some((fx - 1, fy));
        } else if fx + 1 == sandrone.expansion_max_x {
            target = Some((fx + 1, fy));
        } else if fy - 1 == sandrone.expansion_min_y {
            target = Some((fx, fy - 1));
        } else if fy + 1 == sandrone.expansion_max_y {
            target = Some((fx, fy + 1));
        }
        match target {
            Some((px, py)) => {
                assert(plug_edits(m)[0].0 == px && plug_edits(m)[0].1 == py);
                set_cell_tile_at(options, world, px, py, Tile::Impassible);
                sandrone.plugged_a_hole = true;
                sandrone.impassable_tiles.push((px, py));
                proof {
                    lemma_world_edited_step(&w0, &w0, world, Seq::empty(), px as int, py as int, CellEdit::Tile(Tile::Impassible));
                    assert(plug_edits(m) =~= Seq::<(int, int, CellEdit)>::empty().push((px as int, py as int, CellEdit::Tile(Tile::Impassible))));
                }
            },
            None => {
                assert(plug_edits(m) =~= Seq::<(int, int, CellEdit)>::empty());
            },
        }
    } else {
        assert(plug_edits(m) =~= Seq::<(int, int, CellEdit)>::empty());
    }
}

fn san_walk_castle(sandrone: &mut Sandrone, sand: u32, world: &mut World, options: &Options)
    requires
        old(sandrone).wf(),
        old(world).wf(),
        coord_ok2(old(sandrone).movable.x as int, old(sandrone).movable.y as int),
        edits_in_bounds(old(world), walk_castle(old(sandrone)@, sand, options, old(world)).edits),
    ensures
        final(sandrone).wf(),
        final(sandrone)@ == walk_castle(old(sandrone)@, sand, options, old(world)).sandrone,
        world_edited(old(world), final(world), walk_castle(old(sandrone)@, sand, options, old(world)).edits),
{
    let ghost m0 = sandrone@;
    let ghost w0 = *world;
    let fx = sandrone.movable.x;
    let fy = sandrone.movable.y;
    san_seek_again(sandrone, options);
    san_plug(sandrone, world, options, Ghost(m0));
    let ghost q = choose|q: int| 0 <= q < 4 && sandrone.direction_cycle@ == cycle_from(q);
    proof {
        lemma_cycle_steps(q);
    }
    let k = find_push(options, world, fx, fy, &sandrone.direction_cycle, Ghost(w0), Ghost(plug_edits(m0)));
    match k {
        Some(k) => {
            let (dx, dy) = sandrone.direction_cycle[k];
            sandrone.movable.x = fx + dx;
            sandrone.movable.y = fy + dy;
            sandrone.last_dx = dx;
            sandrone.last_dy = dy;
        },
        None => {},
    }
}

#[verifier::spinoff_prover]
#[verifier::rlimit(60)]
fn san_neighbor(sandrone: &mut Sandrone, sand: u32, world: &mut World, options: &mut Options)
    requires
        old(sandrone).wf(),
        old(sandrone).state == SandroneState::MovingToNeighborCell,
        old(world).wf(),
        edits_in_bounds(old(world), tick_neighbor(old(sandrone)@, sand, old(options), old(world)).edits),
        if old(sandrone).post_castle > 0 {
            crate::movable::coord_ok(old(sandrone).movable.x, old(sandrone).movable.y)
        } else {
            coord_ok2(old(sandrone).movable.x as int, old(sandrone).movable.y as int)
        },
    ensures
        final(sandrone).wf(),
        final(sandrone)@ == tick_neighbor(old(sandrone)@, sand, old(options), old(world)).sandrone,
        world_edited(old(world), final(world), tick_neighbor(old(sandrone)@, sand, old(options), old(world)).edits),
        *final(options) == (Options {
            return_to_move: old(options).return_to_move || tick_neighbor(old(sandrone)@, sand, old(options), old(world)).return_to_move,
            ..*old(options)
        }),
{
    let ghost m0 = sandrone@;
    proof {
        lemma_world_edited_none(world);
    }
    if sandrone.post_castle > 0 {
        san_enter_redecorating(sandrone, world, options);
        return;
    }
    let fx = sandrone.movable.x;
    let fy = sandrone.movable.y;
    align_cycle(sandrone);
    let ghost q = (step_index((m0.last_dx, m0.last_dy)) + 3) % 4;
    proof {
        lemma_cycle_steps(q);
    }
    if sand < 10 {
        sandrone.backtracking = true;
    } else if sandrone.last_expansion_x == fx && sandrone.last_expansion_y == fy {
        sandrone.backtracking = false;
    }
    let mut found = false;
    if !sandrone.backtracking && sand >= 10 && !sandrone.found_end {
        let k = find_convertible(options, world, fx, fy, &sandrone.direction_cycle, sandrone.tmp, sandrone);
        match k {
            Some(k) => {
                let (dx, dy) = sandrone.direction_cycle[k];
                found = true;
                sandrone.movable.x = fx + dx;
                sandrone.movable.y = fy + dy;
                set_sandrone_state(sandrone, SandroneState::BuildingArrowCell);
                sandrone.last_dx = dx;
                sandrone.last_dy = dy;
                sandrone.seeking = false;
            },
            None => {},
        }
    }
    if !found {
        san_walk_castle(sandrone, sand, world, options);
    }
}


fn write_tile(world: &mut World, options: &Options, x: i32, y: i32, tile: Tile)
    requires
        old(world).wf(),
        old(world).in_bounds(x as int, y as int),
    ensures
        world_edited(old(world), final(world), seq![(x as int, y as int, CellEdit::Tile(tile))]),
{
    let ghost w0 = *world;
    proof {
        lemma_world_edited_none(world);
    }
    set_cell_tile_at(options, world, x, y, tile);
    proof {
        lemma_world_edited_step(&w0, &w0, world, Seq::empty(), x as int, y as int, CellEdit::Tile(tile));
        assert(Seq::<(int, int, CellEdit)>::empty().push((x as int, y as int, CellEdit::Tile(tile)))
            =~= seq![(x as int, y as int, CellEdit::Tile(tile))]);
    }
}

fn san_grow_castle(sandrone: &mut Sandrone)
    requires
        old(sandrone).wf(),
        crate::movable::coord_ok(old(sandrone).movable.x, old(sandrone).movable.y),
    ensures
        final(sandrone).wf(),
        ({
            let m = old(sandrone)@;
            let r = grown_rect(m, m.movable.x as int, m.movable.y as int);
            final(sandrone)@ == with_state(
                SandroneModel {
                    last_expansion_x: m.movable.x,
                    last_expansion_y: m.movable.y,
                    expansion_min_x: r.0 as i32,
                    expansion_min_y: r.1 as i32,
                    expansion_max_x: r.2 as i32,
                    expansion_max_y: r.3 as i32,
                    push_tiles: m.push_tiles.push((m.movable.x, m.movable.y)),
                    ..m
                },
                SandroneState::MovingToNeighborCell,
            )
        }),
{
    let ghost q = choose|q: int| 0 <= q < 4 && sandrone.direction_cycle@ == cycle_from(q);
    let x = sandrone.movable.x;
    let y = sandrone.movable.y;
    sandrone.last_expansion_x = x;
    sandrone.last_expansion_y = y;
    if x <= sandrone.expansion_min_x {
        sandrone.expansion_min_x = x - 1;
    } else if x >= sandrone.expansion_max_x {
        sandrone.expansion_max_x = x + 1;
    }
    if y <= sandrone.expansion_min_y {
        sandrone.expansion_min_y = y - 1;
    } else if y >= sandrone.expansion_max_y {
        sandrone.expansion_max_y = y + 1;
    }
    sandrone.push_tiles.push((x, y));
    set_sandrone_state(sandrone, SandroneState::MovingToNeighborCell);
    assert(sandrone.direction_cycle@ == cycle_from(q));
}

fn san_finish_castle(sandrone: &mut Sandrone, options: &mut Options, Ghost(m): Ghost<SandroneModel>)
    requires
        old(sandrone).wf(),
        old(sandrone).expansion_max_x - old(sandrone).expansion_min_x <= i32::MAX,
        old(sandrone).expansion_max_y - old(sandrone).expansion_min_y <= i32::MAX,
        rect_area((old(sandrone).expansion_min_x as int, old(sandrone).expansion_min_y as int, old(sandrone).expansion_max_x as int, old(sandrone).expansion_max_y as int)) <= i32::MAX,
        m.air_lifted == old(sandrone).air_lifted,
        m.post_castle == old(sandrone).post_castle,
    ensures
        final(sandrone).wf(),
        ({
            let m1 = old(sandrone)@;
            let done = rect_area((m1.expansion_min_x as int, m1.expansion_min_y as int, m1.expansion_max_x as int, m1.expansion_max_y as int)) >= old(options).sandcastle_area_limit;
            &&& final(sandrone)@ == (if done {
                let d = SandroneModel { status: SANDRONE_CASTLE_DONE@, found_end: true, seeking: false, backtracking: false, ..m1 };
                if !m.air_lifted && m.post_castle != 0xffff_ffff {
                    SandroneModel { air_lifting: true, backtracking: true, ..with_state(d, SandroneState::PickingUpMiner) }
                } else {
                    d
                }
            } else {
                m1
            })
            &&& *final(options) == (Options { visual: old(options).visual || done, ..*old(options) })
        }),
{
    let ghost q = choose|q: int| 0 <= q < 4 && sandrone.direction_cycle@ == cycle_from(q);
    let w: i32 = sandrone.expansion_max_x - sandrone.expansion_min_x;
    let h: i32 = sandrone.expansion_max_y - sandrone.expansion_min_y;
    proof {
        reveal(rect_area);
    }
    let area: i32 = w * h;
    if area as u32 >= options.sandcastle_area_limit {
        options.visual = true;
        sandrone.status_desc = String::from_str(SANDRONE_CASTLE_DONE);
        sandrone.found_end = true;
        sandrone.seeking = false;
        sandrone.backtracking = false;
        if !sandrone.air_lifted && sandrone.post_castle != 0xffff_ffff {
            set_sandrone_state(sandrone, SandroneState::PickingUpMiner);
            sandrone.air_lifting = true;
            sandrone.backtracking = true;
        }
    }
    assert(sandrone.direction_cycle@ == cycle_from(q));
}

fn san_build(sandrone: &mut Sandrone, inventory: &mut Inventory, world: &mut World, options: &mut Options)
    requires
        old(sandrone).wf(),
        old(sandrone).state == SandroneState::BuildingArrowCell,
        old(world).wf(),
        old(world).in_bounds(old(sandrone).movable.x as int, old(sandrone).movable.y as int),
        crate::movable::coord_ok(old(sandrone).movable.x, old(sandrone).movable.y),
        !(0x8000_0000 <= old(inventory).sand < 0x8000_000a),
        ({
            let r = grown_rect(old(sandrone)@, old(sandrone).movable.x as int, old(sandrone).movable.y as int);
            &&& r.2 - r.0 <= i32::MAX
            &&& r.3 - r.1 <= i32::MAX
            &&& rect_area(r) <= i32::MAX
        }),
    ensures
        final(sandrone).wf(),
        final(sandrone)@ == tick_build(old(sandrone)@, old(inventory).sand, old(options)).sandrone,
        world_edited(old(world), final(world), tick_build(old(sandrone)@, old(inventory).sand, old(options)).edits),
        *final(inventory) == (Inventory { sand: sand_after_build(old(inventory).sand), ..*old(inventory) }),
        *final(options) == (Options {
            visual: old(options).visual || tick_build(old(sandrone)@, old(inventory).sand, old(options)).visual,
            ..*old(options)
        }),
{
    let ghost m0 = sandrone@;
    let x = sandrone.movable.x;
    let y = sandrone.movable.y;
    write_tile(world, options, x, y, Tile::Push);
    san_grow_castle(sandrone);
    // The sand is spent as a signed count clamped at zero: ten or more below
    // `2^31` loses ten, everything else (wrapping negative as `i32`) leaves none.
    inventory.sand = if 10 <= inventory.sand && inventory.sand < 0x8000_0000 {
        inventory.sand - 10
    } else {
        0
    };
    san_finish_castle(sandrone, options, Ghost(m0));
}

fn way_towards_exec(s: &Sandrone, options: &Options, world: &World, dx: i32, dy: i32) -> (r: Option<Way>)
    requires
        world.wf(),
        coord_ok2(s.movable.x as int, s.movable.y as int),
        is_unit_step(dx as int, dy as int),
        forall|i: int| 0 <= i < way_towards(s@, options, world, dx as int, dy as int).len()
            ==> world.in_bounds(#[trigger] way_towards(s@, options, world, dx as int, dy as int)[i].0 as int,
                way_towards(s@, options, world, dx as int, dy as int)[i].1 as int),
    ensures
        way_towards(s@, options, world, dx as int, dy as int) == (match r {
            Some(v) => seq![v],
            None => Seq::<Way>::empty(),
        }),
{
    let fx = s.movable.x;
    let fy = s.movable.y;
    let nx = fx + dx;
    let ny = fy + dy;
    let px = fx + 2 * dx;
    let py = fy + 2 * dy;
    let inside_axis = if dx == -1 {
        nx >= s.expansion_min_x
    } else if dx == 1 {
        nx <= s.expansion_max_x
    } else if dy == -1 {
        ny >= s.expansion_min_y
    } else {
        ny <= s.expansion_max_y
    };
    if !inside_axis {
        return None;
    }
    let ghost ways = way_towards(s@, options, world, dx as int, dy as int);
    if get_cell_tile_at(options, world, nx, ny) == Tile::Soil {
        assert(ways.len() == 1 && ways[0].0 == nx && ways[0].1 == ny);
        let v = get_cell_tile_value_at(options, world, nx, ny);
        return Some((nx, ny, 0, 0, v, false));
    }
    let push_axis = if dx == -1 {
        px > s.expansion_min_x
    } else if dx == 1 {
        px < s.expansion_max_x
    } else if dy == -1 {
        py > s.expansion_min_y
    } else {
        py < s.expansion_max_y
    };
    if push_axis && get_cell_tile_at(options, world, px, py) == Tile::Soil {
        assert(ways.len() == 1 && ways[0].0 == nx && ways[0].1 == ny);
        let v = get_cell_tile_value_at(options, world, nx, ny);
        return Some((nx, ny, px, py, v, true));
    }
    None
}

fn collect_ways(sandrone: &Sandrone, world: &World, options: &Options) -> (ways: Vec<Way>)
    requires
        world.wf(),
        coord_ok2(sandrone.movable.x as int, sandrone.movable.y as int),
        forall|i: int| 0 <= i < redecorate_ways(sandrone@, options, world).len()
            ==> world.in_bounds(#[trigger] redecorate_ways(sandrone@, options, world)[i].0 as int,
                redecorate_ways(sandrone@, options, world)[i].1 as int),
    ensures
        ways@ == redecorate_ways(sandrone@, options, world),
{
    let ghost m0 = sandrone@;
    let ghost all = redecorate_ways(m0, options, world);
    let ghost l = way_towards(m0, options, world, -1, 0);
    let ghost u = way_towards(m0, options, world, 0, -1);
    let ghost rr = way_towards(m0, options, world, 1, 0);
    let ghost d = way_towards(m0, options, world, 0, 1);
    assert(all == l + u + rr + d);
    assert forall|i: int| 0 <= i < l.len() implies world.in_bounds(#[trigger] l[i].0 as int, l[i].1 as int) by {
        assert(all[i] == l[i]);
    }
    assert forall|i: int| 0 <= i < u.len() implies world.in_bounds(#[trigger] u[i].0 as int, u[i].1 as int) by {
        assert(all[l.len() + i] == u[i]);
    }
    assert forall|i: int| 0 <= i < rr.len() implies world.in_bounds(#[trigger] rr[i].0 as int, rr[i].1 as int) by {
        assert(all[l.len() + u.len() + i] == rr[i]);
    }
    assert forall|i: int| 0 <= i < d.len() implies world.in_bounds(#[trigger] d[i].0 as int, d[i].1 as int) by {
        assert(all[l.len() + u.len() + rr.len() + i] == d[i]);
    }
    let mut ways: Vec<Way> = Vec::new();
    match way_towards_exec(sandrone, options, world, -1, 0) {
        Some(v) => ways.push(v),
        None => {},
    }
    assert(ways@ =~= l);
    match way_towards_exec(sandrone, options, world, 0, -1) {
        Some(v) => ways.push(v),
        None => {},
    }
    assert(ways@ =~= l + u);
    match way_towards_exec(sandrone, options, world, 1, 0) {
        Some(v) => ways.push(v),
        None => {},
    }
    assert(ways@ =~= l + u + rr);
    match way_towards_exec(sandrone, options, world, 0, 1) {
        Some(v) => ways.push(v),
        None => {},
    }
    assert(ways@ =~= all);
    ways
}

fn pick_lowest_way(ways: &Vec<Way>) -> (best: Way)
    requires
        ways@.len() > 0,
    ensures
        best == pick_way(ways@, ways@.len() - 1),
{
    let n = ways.len();
    let mut best = ways[n - 1];
    let mut i: usize = 0;
    while i < n - 1
        invariant
            n == ways@.len(),
            n > 0,
            i <= n - 1,
            best == pick_way(ways@, i as int),
        decreases n - 1 - i,
    {
        if ways[i].4 < best.4 {
            best = ways[i];
        }
        i = i + 1;
    }
    best
}

fn apply_way(world: &mut World, options: &Options, best: Way)
    requires
        old(world).wf(),
        best.4 < u32::MAX,
        old(world).in_bounds(best.0 as int, best.1 as int),
        best.5 ==> old(world).in_bounds(best.2 as int, best.3 as int),
    ensures
        world_edited(old(world), final(world), {
            let e1 = seq![(best.0 as int, best.1 as int, CellEdit::Value((best.4 + 1) as u32))];
            if best.5 {
                e1 + seq![(best.0 as int, best.1 as int, CellEdit::Tile(Tile::Soil)), (best.2 as int, best.3 as int, CellEdit::Tile(Tile::Push))]
            } else {
                e1
            }
        }),
{
    let (tx, ty, txx, tyy, v, mv) = best;
    let ghost w0 = *world;
    proof {
        lemma_world_edited_none(world);
    }
    set_cell_tile_value_at(options, world, tx, ty, v + 1);
    let ghost w1 = *world;
    let ghost e1 = seq![(tx as int, ty as int, CellEdit::Value((v + 1) as u32))];
    proof {
        lemma_world_edited_step(&w0, &w0, world, Seq::empty(), tx as int, ty as int, CellEdit::Value((v + 1) as u32));
        assert(Seq::<(int, int, CellEdit)>::empty().push((tx as int, ty as int, CellEdit::Value((v + 1) as u32))) =~= e1);
    }
    if mv {
        set_cell_tile_at(options, world, tx, ty, Tile::Soil);
        let ghost w2 = *world;
        proof {
            lemma_world_edited_step(&w0, &w1, world, e1, tx as int, ty as int, CellEdit::Tile(Tile::Soil));
        }
        set_cell_tile_at(options, world, txx, tyy, Tile::Push);
        proof {
            lemma_world_edited_step(&w0, &w2, world, e1.push((tx as int, ty as int, CellEdit::Tile(Tile::Soil))), txx as int, tyy as int, CellEdit::Tile(Tile::Push));
            assert(e1.push((tx as int, ty as int, CellEdit::Tile(Tile::Soil))).push((txx as int, tyy as int, CellEdit::Tile(Tile::Push)))
                =~= e1 + seq![(tx as int, ty as int, CellEdit::Tile(Tile::Soil)), (txx as int, tyy as int, CellEdit::Tile(Tile::Push))]);
        }
    }
}

fn san_redecorate(sandrone: &mut Sandrone, world: &mut World, options: &Options)
    requires
        old(sandrone).wf(),
        old(world).wf(),
        coord_ok2(old(sandrone).movable.x as int, old(sandrone).movable.y as int),
        redecorate_ways(old(sandrone)@, options, old(world)).len() > 0,
        forall|i: int| 0 <= i < redecorate_ways(old(sandrone)@, options, old(world)).len()
            ==> old(world).in_bounds(#[trigger] redecorate_ways(old(sandrone)@, options, old(world))[i].0 as int,
                redecorate_ways(old(sandrone)@, options, old(world))[i].1 as int),
        ({
            let ways = redecorate_ways(old(sandrone)@, options, old(world));
            pick_way(ways, ways.len() - 1).4 < u32::MAX
        }),
        edits_in_bounds(old(world), tick_redecorate(old(sandrone)@, 0, options, old(world)).edits),
    ensures
        final(sandrone).wf(),
        final(sandrone)@ == tick_redecorate(old(sandrone)@, 0, options, old(world)).sandrone,
        world_edited(old(world), final(world), tick_redecorate(old(sandrone)@, 0, options, old(world)).edits),
{
    let ghost m0 = sandrone@;
    let ghost w0 = *world;
    let ghost edits = tick_redecorate(m0, 0, options, &w0).edits;
    let ghost q = choose|q: int| 0 <= q < 4 && sandrone.direction_cycle@ == cycle_from(q);
    let ways = collect_ways(sandrone, world, options);
    let best = pick_lowest_way(&ways);
    proof {
        assert(w0.in_bounds(edits[0].0, edits[0].1));
        if best.5 {
            assert(w0.in_bounds(edits[2].0, edits[2].1));
        }
    }
    apply_way(world, options, best);
    sandrone.movable.x = best.0;
    sandrone.movable.y = best.1;
    assert(sandrone.direction_cycle@ == cycle_from(q));
}

/// `t` applied to everything a tick touches: the sandrone, the world, the
/// inventory's sand, the carried miner and the two option switches.
pub open spec fn tick_applied(
    t: SandroneTick,
    s1: &Sandrone,
    miner0: &Movable,
    miner1: &Movable,
    inv0: &Inventory,
    inv1: &Inventory,
    w0: &World,
    w1: &World,
    o0: &Options,
    o1: &Options,
) -> bool {
    &&& s1@ == t.sandrone
    &&& world_edited(w0, w1, t.edits)
    &&& *inv1 == (Inventory { sand: t.sand, ..*inv0 })
    &&& *miner1 == (if t.carries_miner {
        Movable { x: t.sandrone.movable.x, y: t.sandrone.movable.y, disabled: miner0.disabled && !t.frees_miner, ..*miner0 }
    } else {
        *miner0
    })
    &&& *o1 == (Options { return_to_move: o0.return_to_move || t.return_to_move, visual: o0.visual || t.visual, ..*o0 })
}

/// The tick of `sandrone_tick` applied (see `tick_applied`).
pub open spec fn sandrone_tick_applied(
    s0: &Sandrone,
    s1: &Sandrone,
    miner0: &Movable,
    miner1: &Movable,
    inv0: &Inventory,
    inv1: &Inventory,
    w0: &World,
    w1: &World,
    o0: &Options,
    o1: &Options,
) -> bool {
    tick_applied(sandrone_tick(s0@, miner0.x as int, miner0.y as int, inv0.sand, o0, w0), s1, miner0, miner1, inv0, inv1, w0, w1, o0, o1)
}

proof fn lemma_sandrone_tick_cases(m: SandroneModel, mx: int, my: int, sand: u32, o: &Options, w: &World)
    ensures
        m.state == SandroneState::Unconstructed ==> sandrone_tick(m, mx, my, sand, o, w) == quiet_tick(m, sand),
        m.state == SandroneState::WaitingForWater ==> sandrone_tick(m, mx, my, sand, o, w) == tick_waiting(m, sand),
        m.state == SandroneState::MovingToOrigin ==> sandrone_tick(m, mx, my, sand, o, w) == tick_to_origin(m, sand),
        m.state == SandroneState::MovingToNeighborCell ==> sandrone_tick(m, mx, my, sand, o, w) == tick_neighbor(m, sand, o, w),
        m.state == SandroneState::BuildingArrowCell ==> sandrone_tick(m, mx, my, sand, o, w) == tick_build(m, sand, o),
        m.state == SandroneState::PickingUpMiner ==> sandrone_tick(m, mx, my, sand, o, w) == tick_pickup(m, sand, mx, my),
        m.state == SandroneState::DeliveringMiner ==> sandrone_tick(m, mx, my, sand, o, w) == tick_deliver(m, sand),
        m.state == SandroneState::Redecorating ==> sandrone_tick(m, mx, my, sand, o, w) == tick_redecorate(m, sand, o, w),
{
    reveal(sandrone_tick);
}

proof fn lemma_sandrone_tick_ok(m: SandroneModel, mx: int, my: int, sand: u32, o: &Options, w: &World)
    requires
        sandrone_tick_ok(m, mx, my, sand, o, w),
    ensures
        w.wf(),
        edits_in_bounds(w, sandrone_tick(m, mx, my, sand, o, w).edits),
        m.state == SandroneState::MovingToNeighborCell ==> if m.post_castle > 0 {
            crate::movable::coord_ok(m.movable.x, m.movable.y)
        } else {
            coord_ok2(m.movable.x as int, m.movable.y as int)
        },
        m.state == SandroneState::BuildingArrowCell ==> {
            let r = grown_rect(m, m.movable.x as int, m.movable.y as int);
            &&& crate::movable::coord_ok(m.movable.x, m.movable.y)
            &&& !(0x8000_0000 <= sand < 0x8000_000a)
            &&& r.2 - r.0 <= i32::MAX
            &&& r.3 - r.1 <= i32::MAX
            &&& rect_area(r) <= i32::MAX
        },
        m.state == SandroneState::Redecorating ==> {
            let ways = redecorate_ways(m, o, w);
            &&& coord_ok2(m.movable.x as int, m.movable.y as int)
            &&& ways.len() > 0
            &&& forall|i: int| 0 <= i < ways.len() ==> w.in_bounds(#[trigger] ways[i].0 as int, ways[i].1 as int)
            &&& pick_way(ways, ways.len() - 1).4 < u32::MAX
        },
{
    reveal(sandrone_tick_ok);
}

fn san_to_origin(sandrone: &mut Sandrone, world: &mut World, options: &Options, biome_index: usize)
    requires
        old(sandrone).wf(),
        old(world).wf(),
    ensures
        final(sandrone).wf(),
        final(sandrone)@ == tick_to_origin(old(sandrone)@, 0).sandrone,
        world_edited(old(world), final(world), tick_to_origin(old(sandrone)@, 0).edits),
{
    let ghost q = choose|q: int| 0 <= q < 4 && sandrone.direction_cycle@ == cycle_from(q);
    if move_sandrone_towards(sandrone, 0, 0, biome_index) {
        write_tile(world, options, 0, 0, Tile::Push);
        sandrone.push_tiles.push((0, 0));
        set_sandrone_state(sandrone, SandroneState::MovingToNeighborCell);
        if !sandrone.air_lifted && sandrone.post_castle != 0xffff_ffff && !sandrone.air_lifting
            && sandrone.push_tiles.len() > 1000 {
            set_sandrone_state(sandrone, SandroneState::PickingUpMiner);
            sandrone.air_lifting = true;
        }
    } else {
        proof {
            lemma_world_edited_none(world);
        }
    }
    assert(sandrone.direction_cycle@ == cycle_from(q));
}

fn san_pickup(sandrone: &mut Sandrone, mx: i32, my: i32, biome_index: usize)
    requires
        old(sandrone).wf(),
    ensures
        final(sandrone).wf(),
        final(sandrone)@ == tick_pickup(old(sandrone)@, 0, mx as int, my as int).sandrone,
{
    let ghost q = choose|q: int| 0 <= q < 4 && sandrone.direction_cycle@ == cycle_from(q);
    if move_sandrone_towards(sandrone, mx, my, biome_index) {
        sandrone.state = SandroneState::DeliveringMiner;
        sandrone.status_desc = String::from_str(SANDRONE_DELIVERING);
    }
    assert(sandrone.direction_cycle@ == cycle_from(q));
}

fn san_deliver(sandrone: &mut Sandrone, mminermovable: &mut Movable, biome_index: usize)
    requires
        old(sandrone).wf(),
    ensures
        final(sandrone).wf(),
        final(sandrone)@ == tick_deliver(old(sandrone)@, 0).sandrone,
        *final(mminermovable) == (Movable {
            x: final(sandrone).movable.x,
            y: final(sandrone).movable.y,
            disabled: old(mminermovable).disabled && !tick_deliver(old(sandrone)@, 0).frees_miner,
            ..*old(mminermovable)
        }),
{
    let ghost q = choose|q: int| 0 <= q < 4 && sandrone.direction_cycle@ == cycle_from(q);
    if move_sandrone_towards(sandrone, 0, 0, biome_index) {
        sandrone.state = SandroneState::MovingToNeighborCell;
        sandrone.status_desc = String::from_str(SANDRONE_BACK_HOME);
        sandrone.air_lifting = false;
        sandrone.air_lifted = true;
        mminermovable.disabled = false;
    }
    mminermovable.x = sandrone.movable.x;
    mminermovable.y = sandrone.movable.y;
    assert(sandrone.direction_cycle@ == cycle_from(q));
}

#[verifier::spinoff_prover]
#[verifier::rlimit(50)]
fn step_waiting(
    sandrone: &mut Sandrone,
    mminermovable: &mut Movable,
    inventory: &mut Inventory,
    world: &mut World,
    options: &mut Options,
    biome_index: usize,
)
    requires
        old(sandrone).wf(),
        old(sandrone).state == SandroneState::WaitingForWater,
        sandrone_tick_ok(old(sandrone)@, old(mminermovable).x as int, old(mminermovable).y as int, old(inventory).sand, old(options), old(world)),
    ensures
        final(sandrone).wf(),
        sandrone_tick_applied(old(sandrone), final(sandrone), old(mminermovable), final(mminermovable), old(inventory), final(inventory), old(world), final(world), old(options), final(options)),
{
    let mx = mminermovable.x;
    let my = mminermovable.y;
    let ghost m0 = sandrone@;
    let ghost sand0 = inventory.sand;
    proof {
        lemma_sandrone_tick_cases(m0, mx as int, my as int, sand0, options, world);
        lemma_sandrone_tick_ok(m0, mx as int, my as int, sand0, options, world);
        lemma_world_edited_none(world);
    }
    let ghost q = choose|q: int| 0 <= q < 4 && sandrone.direction_cycle@ == cycle_from(q);
    if inventory.sand >= 10 {
        set_sandrone_state(sandrone, SandroneState::MovingToOrigin);
    }
    assert(sandrone.direction_cycle@ == cycle_from(q));
}

#[verifier::spinoff_prover]
#[verifier::rlimit(50)]
fn step_to_origin(
    sandrone: &mut Sandrone,
    mminermovable: &mut Movable,
    inventory: &mut Inventory,
    world: &mut World,
    options: &mut Options,
    biome_index: usize,
)
    requires
        old(sandrone).wf(),
        old(sandrone).state == SandroneState::MovingToOrigin,
        sandrone_tick_ok(old(sandrone)@, old(mminermovable).x as int, old(mminermovable).y as int, old(inventory).sand, old(options), old(world)),
    ensures
        final(sandrone).wf(),
        sandrone_tick_applied(old(sandrone), final(sandrone), old(mminermovable), final(mminermovable), old(inventory), final(inventory), old(world), final(world), old(options), final(options)),
{
    let mx = mminermovable.x;
    let my = mminermovable.y;
    let ghost m0 = sandrone@;
    let ghost sand0 = inventory.sand;
    proof {
        lemma_sandrone_tick_cases(m0, mx as int, my as int, sand0, options, world);
        lemma_sandrone_tick_ok(m0, mx as int, my as int, sand0, options, world);
        lemma_world_edited_none(world);
    }
    san_to_origin(sandrone, world, options, biome_index);
}

#[verifier::spinoff_prover]
#[verifier::rlimit(50)]
fn step_neighbor(
    sandrone: &mut Sandrone,
    mminermovable: &mut Movable,
    inventory: &mut Inventory,
    world: &mut World,
    options: &mut Options,
    biome_index: usize,
)
    requires
        old(sandrone).wf(),
        old(sandrone).state == SandroneState::MovingToNeighborCell,
        sandrone_tick_ok(old(sandrone)@, old(mminermovable).x as int, old(mminermovable).y as int, old(inventory).sand, old(options), old(world)),
    ensures
        final(sandrone).wf(),
        sandrone_tick_applied(old(sandrone), final(sandrone), old(mminermovable), final(mminermovable), old(inventory), final(inventory), old(world), final(world), old(options), final(options)),
{
    let mx = mminermovable.x;
    let my = mminermovable.y;
    let ghost m0 = sandrone@;
    let ghost sand0 = inventory.sand;
    proof {
        lemma_sandrone_tick_cases(m0, mx as int, my as int, sand0, options, world);
        lemma_sandrone_tick_ok(m0, mx as int, my as int, sand0, options, world);
        lemma_world_edited_none(world);
    }
    san_neighbor(sandrone, inventory.sand, world, options);
}

#[verifier::spinoff_prover]
#[verifier::rlimit(50)]
fn step_build(
    sandrone: &mut Sandrone,
    mminermovable: &mut Movable,
    inventory: &mut Inventory,
    world: &mut World,
    options: &mut Options,
    biome_index: usize,
)
    requires
        old(sandrone).wf(),
        old(sandrone).state == SandroneState::BuildingArrowCell,
        sandrone_tick_ok(old(sandrone)@, old(mminermovable).x as int, old(mminermovable).y as int, old(inventory).sand, old(options), old(world)),
    ensures
        final(sandrone).wf(),
        sandrone_tick_applied(old(sandrone), final(sandrone), old(mminermovable), final(mminermovable), old(inventory), final(inventory), old(world), final(world), old(options), final(options)),
{
    let mx = mminermovable.x;
    let my = mminermovable.y;
    let ghost m0 = sandrone@;
    let ghost sand0 = inventory.sand;
    proof {
        lemma_sandrone_tick_cases(m0, mx as int, my as int, sand0, options, world);
        lemma_sandrone_tick_ok(m0, mx as int, my as int, sand0, options, world);
        lemma_world_edited_none(world);
    }
    proof {
        let e = tick_build(m0, sand0, options).edits;
        assert(e[0].0 == sandrone.movable.x && e[0].1 == sandrone.movable.y);
    }
    san_build(sandrone, inventory, world, options);
}

#[verifier::spinoff_prover]
#[verifier::rlimit(50)]
fn step_pickup(
    sandrone: &mut Sandrone,
    mminermovable: &mut Movable,
    inventory: &mut Inventory,
    world: &mut World,
    options: &mut Options,
    biome_index: usize,
)
    requires
        old(sandrone).wf(),
        old(sandrone).state == SandroneState::PickingUpMiner,
        sandrone_tick_ok(old(sandrone)@, old(mminermovable).x as int, old(mminermovable).y as int, old(inventory).sand, old(options), old(world)),
    ensures
        final(sandrone).wf(),
        sandrone_tick_applied(old(sandrone), final(sandrone), old(mminermovable), final(mminermovable), old(inventory), final(inventory), old(world), final(world), old(options), final(options)),
{
    let mx = mminermovable.x;
    let my = mminermovable.y;
    let ghost m0 = sandrone@;
    let ghost sand0 = inventory.sand;
    proof {
        lemma_sandrone_tick_cases(m0, mx as int, my as int, sand0, options, world);
        lemma_sandrone_tick_ok(m0, mx as int, my as int, sand0, options, world);
        lemma_world_edited_none(world);
    }
    san_pickup(sandrone, mx, my, biome_index);
}

#[verifier::spinoff_prover]
#[verifier::rlimit(50)]
fn step_deliver(
    sandrone: &mut Sandrone,
    mminermovable: &mut Movable,
    inventory: &mut Inventory,
    world: &mut World,
    options: &mut Options,
    biome_index: usize,
)
    requires
        old(sandrone).wf(),
        old(sandrone).state == SandroneState::DeliveringMiner,
        sandrone_tick_ok(old(sandrone)@, old(mminermovable).x as int, old(mminermovable).y as int, old(inventory).sand, old(options), old(world)),
    ensures
        final(sandrone).wf(),
        sandrone_tick_applied(old(sandrone), final(sandrone), old(mminermovable), final(mminermovable), old(inventory), final(inventory), old(world), final(world), old(options), final(options)),
{
    let mx = mminermovable.x;
    let my = mminermovable.y;
    let ghost m0 = sandrone@;
    let ghost sand0 = inventory.sand;
    proof {
        lemma_sandrone_tick_cases(m0, mx as int, my as int, sand0, options, world);
        lemma_sandrone_tick_ok(m0, mx as int, my as int, sand0, options, world);
        lemma_world_edited_none(world);
    }
    san_deliver(sandrone, mminermovable, biome_index);
}

#[verifier::spinoff_prover]
#[verifier::rlimit(50)]
fn step_redecorate(
    sandrone: &mut Sandrone,
    mminermovable: &mut Movable,
    inventory: &mut Inventory,
    world: &mut World,
    options: &mut Options,
    biome_index: usize,
)
    requires
        old(sandrone).wf(),
        old(sandrone).state == SandroneState::Redecorating,
        sandrone_tick_ok(old(sandrone)@, old(mminermovable).x as int, old(mminermovable).y as int, old(inventory).sand, old(options), old(world)),
    ensures
        final(sandrone).wf(),
        sandrone_tick_applied(old(sandrone), final(sandrone), old(mminermovable), final(mminermovable), old(inventory), final(inventory), old(world), final(world), old(options), final(options)),
{
    let mx = mminermovable.x;
    let my = mminermovable.y;
    let ghost m0 = sandrone@;
    let ghost sand0 = inventory.sand;
    proof {
        lemma_sandrone_tick_cases(m0, mx as int, my as int, sand0, options, world);
        lemma_sandrone_tick_ok(m0, mx as int, my as int, sand0, options, world);
        lemma_world_edited_none(world);
    }
    san_redecorate(sandrone, world, options);
}

/// One tick of the sandrone (see `sandrone_tick`): the sandrone moves, builds,
/// carries the miner or redecorates according to its state. Only the sand of
/// the inventory is read and spent.
pub fn tick_sandrone(
    sandrone: &mut Sandrone,
    mminermovable: &mut Movable,
    inventory: &mut Inventory,
    world: &mut World,
    options: &mut Options,
    biome_index: usize,
)
    requires
        old(sandrone).wf(),
        sandrone_tick_ok(old(sandrone)@, old(mminermovable).x as int, old(mminermovable).y as int, old(inventory).sand, old(options), old(world)),
    ensures
        final(sandrone).wf(),
        sandrone_tick_applied(old(sandrone), final(sandrone), old(mminermovable), final(mminermovable), old(inventory), final(inventory), old(world), final(world), old(options), final(options)),
{
    match sandrone.state {
        SandroneState::Unconstructed => {
            proof {
                lemma_sandrone_tick_cases(sandrone@, mminermovable.x as int, mminermovable.y as int, inventory.sand, options, world);
                lemma_sandrone_tick_ok(sandrone@, mminermovable.x as int, mminermovable.y as int, inventory.sand, options, world);
                lemma_world_edited_none(world);
            }
        },
        SandroneState::WaitingForWater => step_waiting(sandrone, mminermovable, inventory, world, options, biome_index),
        SandroneState::MovingToOrigin => step_to_origin(sandrone, mminermovable, inventory, world, options, biome_index),
        SandroneState::MovingToNeighborCell => step_neighbor(sandrone, mminermovable, inventory, world, options, biome_index),
        SandroneState::BuildingArrowCell => step_build(sandrone, mminermovable, inventory, world, options, biome_index),
        SandroneState::PickingUpMiner => step_pickup(sandrone, mminermovable, inventory, world, options, biome_index),
        SandroneState::DeliveringMiner => step_deliver(sandrone, mminermovable, inventory, world, options, biome_index),
        SandroneState::Redecorating => step_redecorate(sandrone, mminermovable, inventory, world, options, biome_index),
    }
}
} // verus!
