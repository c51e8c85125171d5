//! Headings, turning, and the coordinates and deltas of the cells around a
//! movable actor (miner, drone, sandrone, windrone).

use vstd::prelude::*;
use crate::options::Options;
use crate::world::{World, stuff_at, get_cell_stuff_at, ensure_cell_in_world, get_stored_cell, set_cell_at, span_fits};
use crate::cell::Cell;
use crate::tile::Tile;
use crate::expando::{Rect, rect_of, grow_rect, dist1};
use crate::drone_san::{push_blocked, is_push_impossible_cell, is_unit_step};

verus! {

/// One of the four headings a movable can face. Up is towards smaller `y`.
#[derive(Debug, Clone, Copy, PartialEq, Eq, Structural)]
pub enum Direction {
    Up,
    Right,
    Down,
    Left,
}

/// A movable actor on the grid. Its energy lives with the game loop that spends it.
#[derive(Debug, Clone, Copy)]
pub struct Movable {
    pub what: i32,
    pub x: i32,
    pub y: i32,
    pub dir: Direction,
    /// Do not move while disabled.
    pub disabled: bool,
}

/// The unit step `(dx, dy)` taken when moving forward while facing `dir`.
pub open spec fn forward_delta(dir: Direction) -> (int, int) {
    match dir {
        Direction::Up => (0, -1),
        Direction::Right => (1, 0),
        Direction::Down => (0, 1),
        Direction::Left => (-1, 0),
    }
}

/// The heading after a quarter turn to the left (`left`) or to the right.
pub open spec fn spec_turn_lr(dir: Direction, left: bool) -> Direction {
    match dir {
        Direction::Up => if left { Direction::Left } else { Direction::Right },
        Direction::Right => if left { Direction::Up } else { Direction::Down },
        Direction::Down => if left { Direction::Right } else { Direction::Left },
        Direction::Left => if left { Direction::Down } else { Direction::Up },
    }
}

/// The opposite heading.
pub open spec fn spec_turn_back(dir: Direction) -> Direction {
    match dir {
        Direction::Up => Direction::Down,
        Direction::Right => Direction::Left,
        Direction::Down => Direction::Up,
        Direction::Left => Direction::Right,
    }
}

/// Delta pointing back: the opposite of the forward step.
pub open spec fn back_delta(dir: Direction) -> (int, int) {
    (-forward_delta(dir).0, -forward_delta(dir).1)
}

/// Delta pointing to the left-hand side: forward rotated a quarter turn counter clockwise.
pub open spec fn left_delta(dir: Direction) -> (int, int) {
    (forward_delta(dir).1, -forward_delta(dir).0)
}

/// Delta pointing to the right-hand side: forward rotated a quarter turn clockwise.
pub open spec fn right_delta(dir: Direction) -> (int, int) {
    (-forward_delta(dir).1, forward_delta(dir).0)
}

/// Delta of the forward-left diagonal.
pub open spec fn fl_delta(dir: Direction) -> (int, int) {
    (forward_delta(dir).0 + left_delta(dir).0, forward_delta(dir).1 + left_delta(dir).1)
}

/// Delta of the forward-right diagonal.
pub open spec fn fr_delta(dir: Direction) -> (int, int) {
    (forward_delta(dir).0 + right_delta(dir).0, forward_delta(dir).1 + right_delta(dir).1)
}

/// Delta of the back-left diagonal: one step back and one to the left.
pub open spec fn back_left_delta(dir: Direction) -> (int, int) {
    (back_delta(dir).0 + left_delta(dir).0, back_delta(dir).1 + left_delta(dir).1)
}

/// The diagonal deltas that `delta_br` returns: the back-right diagonal for every heading.
pub open spec fn back_right_delta(dir: Direction) -> (int, int) {
    (back_delta(dir).0 + right_delta(dir).0, back_delta(dir).1 + right_delta(dir).1)
}

/// A coordinate whose neighbours (one step in every direction) are representable.
pub open spec fn coord_ok(x: i32, y: i32) -> bool {
    i32::MIN < x < i32::MAX && i32::MIN < y < i32::MAX
}

/// `(x, y)` moved by `d`.
pub open spec fn offset(x: i32, y: i32, d: (int, int)) -> (int, int) {
    (x + d.0, y + d.1)
}

/// The unit step for moving forward while facing `dir`.
pub fn dir_to_move_delta(dir: Direction) -> (r: (i32, i32))
    ensures
        (r.0 as int, r.1 as int) == forward_delta(dir),
{
    match dir {
        Direction::Up => (0, -1),
        Direction::Left => (-1, 0),
        Direction::Down => (0, 1),
        Direction::Right => (1, 0),
    }
}

/// Quarter turn counter clockwise.
pub fn turn_left(dir: Direction) -> (r: Direction)
    ensures
        r == spec_turn_lr(dir, true),
{
    turn_lr(dir, true)
}

/// Quarter turn clockwise.
pub fn turn_right(dir: Direction) -> (r: Direction)
    ensures
        r == spec_turn_lr(dir, false),
{
    turn_lr(dir, false)
}

/// Quarter turn, to the left when `left` holds and to the right otherwise.
pub fn turn_lr(dir: Direction, left: bool) -> (r: Direction)
    ensures
        r == spec_turn_lr(dir, left),
{
    match dir {
        Direction::Up => if left { Direction::Left } else { Direction::Right },
        Direction::Right => if left { Direction::Up } else { Direction::Down },
        Direction::Down => if left { Direction::Right } else { Direction::Left },
        Direction::Left => if left { Direction::Down } else { Direction::Up },
    }
}

/// Half turn.
pub fn turn_back(dir: Direction) -> (r: Direction)
    ensures
        r == spec_turn_back(dir),
{
    match dir {
        Direction::Up => Direction::Down,
        Direction::Right => Direction::Left,
        Direction::Down => Direction::Up,
        Direction::Left => Direction::Right,
    }
}

/// The cell in front of `(x, y)`.
pub fn coord_forward(x: i32, y: i32, dir: Direction) -> (r: (i32, i32))
    requires
        coord_ok(x, y),
    ensures
        (r.0 as int, r.1 as int) == offset(x, y, forward_delta(dir)),
{
    match dir {
        Direction::Up => (x, y - 1),
        Direction::Right => (x + 1, y),
        Direction::Down => (x, y + 1),
        Direction::Left => (x - 1, y),
    }
}

/// The cell behind `(x, y)`.
pub fn coord_back(x: i32, y: i32, dir: Direction) -> (r: (i32, i32))
    requires
        coord_ok(x, y),
    ensures
        (r.0 as int, r.1 as int) == offset(x, y, back_delta(dir)),
{
    match dir {
        Direction::Up => (x, y + 1),
        Direction::Right => (x - 1, y),
        Direction::Down => (x, y - 1),
        Direction::Left => (x + 1, y),
    }
}

/// The cell to the left-hand side of `(x, y)`.
pub fn coord_left(x: i32, y: i32, dir: Direction) -> (r: (i32, i32))
    requires
        coord_ok(x, y),
    ensures
        (r.0 as int, r.1 as int) == offset(x, y, left_delta(dir)),
{
    match dir {
        Direction::Up => (x - 1, y),
        Direction::Right => (x, y - 1),
        Direction::Down => (x + 1, y),
        Direction::Left => (x, y + 1),
    }
}

/// The cell to the right-hand side of `(x, y)`.
pub fn coord_right(x: i32, y: i32, dir: Direction) -> (r: (i32, i32))
    requires
        coord_ok(x, y),
    ensures
        (r.0 as int, r.1 as int) == offset(x, y, right_delta(dir)),
{
    match dir {
        Direction::Up => (x + 1, y),
        Direction::Right => (x, y + 1),
        Direction::Down => (x - 1, y),
        Direction::Left => (x, y - 1),
    }
}

/// The cell to the left (`left`) or to the right of `(x, y)`.
pub fn coord_lr(x: i32, y: i32, dir: Direction, left: bool) -> (r: (i32, i32))
    requires
        coord_ok(x, y),
    ensures
        (r.0 as int, r.1 as int) == offset(x, y, if left { left_delta(dir) } else { right_delta(dir) }),
{
    if left {
        coord_left(x, y, dir)
    } else {
        coord_right(x, y, dir)
    }
}

/// The forward-left diagonal of `(x, y)`.
pub fn coord_fl(x: i32, y: i32, dir: Direction) -> (r: (i32, i32))
    requires
        coord_ok(x, y),
    ensures
        (r.0 as int, r.1 as int) == offset(x, y, fl_delta(dir)),
{
    match dir {
        Direction::Up => (x - 1, y - 1),
        Direction::Right => (x + 1, y - 1),
        Direction::Down => (x + 1, y + 1),
        Direction::Left => (x - 1, y + 1),
    }
}

/// The forward-right diagonal of `(x, y)`.
pub fn coord_fr(x: i32, y: i32, dir: Direction) -> (r: (i32, i32))
    requires
        coord_ok(x, y),
    ensures
        (r.0 as int, r.1 as int) == offset(x, y, fr_delta(dir)),
{
    match dir {
        Direction::Up => (x + 1, y - 1),
        Direction::Right => (x + 1, y + 1),
        Direction::Down => (x - 1, y + 1),
        Direction::Left => (x - 1, y - 1),
    }
}

/// The back-left diagonal of `(x, y)`.
pub fn coord_bl(x: i32, y: i32, dir: Direction) -> (r: (i32, i32))
    requires
        coord_ok(x, y),
    ensures
        (r.0 as int, r.1 as int) == offset(x, y, back_left_delta(dir)),
{
    match dir {
        Direction::Up => (x - 1, y + 1),
        Direction::Right => (x - 1, y - 1),
        Direction::Down => (x + 1, y - 1),
        Direction::Left => (x + 1, y + 1),
    }
}

/// The back-right diagonal of `(x, y)`.
pub fn coord_br(x: i32, y: i32, dir: Direction) -> (r: (i32, i32))
    requires
        coord_ok(x, y),
    ensures
        (r.0 as int, r.1 as int) == offset(x, y, back_right_delta(dir)),
{
    match dir {
        Direction::Up => (x + 1, y + 1),
        Direction::Right => (x - 1, y + 1),
        Direction::Down => (x - 1, y - 1),
        Direction::Left => (x + 1, y - 1),
    }
}

/// Delta to the cell in front.
pub fn delta_forward(dir: Direction) -> (r: (i32, i32))
    ensures
        (r.0 as int, r.1 as int) == forward_delta(dir),
{
    match dir {
        Direction::Up => (0, 0 - 1),
        Direction::Right => (0 + 1, 0),
        Direction::Down => (0, 0 + 1),
        Direction::Left => (0 - 1, 0),
    }
}

/// Delta to the cell behind.
pub fn delta_back(dir: Direction) -> (r: (i32, i32))
    ensures
        (r.0 as int, r.1 as int) == back_delta(dir),
{
    match dir {
        Direction::Up => (0, 0 + 1),
        Direction::Right => (0 - 1, 0),
        Direction::Down => (0, 0 - 1),
        Direction::Left => (0 + 1, 0),
    }
}

/// Delta to the left-hand cell.
pub fn delta_left(dir: Direction) -> (r: (i32, i32))
    ensures
        (r.0 as int, r.1 as int) == left_delta(dir),
{
    match dir {
        Direction::Up => (0 - 1, 0),
        Direction::Right => (0, 0 - 1),
        Direction::Down => (0 + 1, 0),
        Direction::Left => (0, 0 + 1),
    }
}

/// Delta to the right-hand cell.
pub fn delta_right(dir: Direction) -> (r: (i32, i32))
    ensures
        (r.0 as int, r.1 as int) == right_delta(dir),
{
    match dir {
        Direction::Up => (0 + 1, 0),
        Direction::Right => (0, 0 + 1),
        Direction::Down => (0 - 1, 0),
        Direction::Left => (0, 0 - 1),
    }
}

/// Delta to the left (`left`) or right-hand cell.
pub fn delta_lr(dir: Direction, left: bool) -> (r: (i32, i32))
    ensures
        (r.0 as int, r.1 as int) == if left { left_delta(dir) } else { right_delta(dir) },
{
    if left {
        delta_left(dir)
    } else {
        delta_right(dir)
    }
}

/// Delta to the forward-left diagonal.
pub fn delta_fl(dir: Direction) -> (r: (i32, i32))
    ensures
        (r.0 as int, r.1 as int) == fl_delta(dir),
{
    match dir {
        Direction::Up => (0 - 1, 0 - 1),
        Direction::Right => (0 + 1, 0 - 1),
        Direction::Down => (0 + 1, 0 + 1),
        Direction::Left => (0 - 1, 0 + 1),
    }
}

/// Delta to the forward-right diagonal.
pub fn delta_fr(dir: Direction) -> (r: (i32, i32))
    ensures
        (r.0 as int, r.1 as int) == fr_delta(dir),
{
    match dir {
        Direction::Up => (0 + 1, 0 - 1),
        Direction::Right => (0 + 1, 0 + 1),
        Direction::Down => (0 - 1, 0 + 1),
        Direction::Left => (0 - 1, 0 - 1),
    }
}

/// Delta to the back-left diagonal.
pub fn delta_bl(dir: Direction) -> (r: (i32, i32))
    ensures
        (r.0 as int, r.1 as int) == back_left_delta(dir),
{
    match dir {
        Direction::Up => (0 - 1, 0 + 1),
        Direction::Right => (0 - 1, 0 - 1),
        Direction::Down => (0 + 1, 0 - 1),
        Direction::Left => (0 + 1, 0 + 1),
    }
}

/// Delta to the back-right diagonal.
pub fn delta_br(dir: Direction) -> (r: (i32, i32))
    ensures
        (r.0 as int, r.1 as int) == back_right_delta(dir),
{
    match dir {
        Direction::Up => (0 + 1, 0 + 1),
        Direction::Right => (0 - 1, 0 + 1),
        Direction::Down => (0 - 1, 0 - 1),
        Direction::Left => (0 + 1, 0 - 1),
    }
}


/// The turn a movable with step `(dx, dy)` at `(mx, my)` is pushed into by the
/// push and impassible cells around it, as `(dx', dy', fill)`: `(0, 0)` leaves
/// the turn to the usual rules, and `fill` says whether the current cell may be
/// filled. Boxed in or in a dead end it heads for the open side (forward when
/// boxed in); in a corner it heads away from the corner, filling only when the
/// opposite diagonal is open; in a corridor it goes along it; otherwise it only
/// turns when the cell ahead is blocked.
pub open spec fn corner_move(o: &Options, w: &World, mx: int, my: int, dx: int, dy: int) -> (int, int, bool) {
    let xy = push_blocked(o, w, mx, my);
    let fl = push_blocked(o, w, mx + dy + dx, my + dy - dx);
    let fwd = push_blocked(o, w, mx + dx, my + dy);
    let fr = push_blocked(o, w, mx + dx - dy, my + dx + dy);
    let right = push_blocked(o, w, mx - dy, my + dx);
    let br = push_blocked(o, w, mx - dy - dx, my + dx - dy);
    let back = push_blocked(o, w, mx - dx, my - dy);
    let bl = push_blocked(o, w, mx + dy - dx, my - dx - dy);
    let left = push_blocked(o, w, mx + dy, my - dx);
    let count = (if fwd { 1int } else { 0 }) + (if left { 1int } else { 0 }) + (if back { 1int } else { 0 }) + (if right { 1int } else { 0 });
    if count == 4 {
        (dx, dy, !xy)
    } else if count == 3 {
        if !fwd {
            (dx, dy, !xy)
        } else if !left {
            (dy, -dx, !xy)
        } else if !back {
            (-dx, -dy, !xy)
        } else {
            (-dy, dx, !xy)
        }
    } else if count == 2 {
        if fwd {
            if back {
                (0, 0, false)
            } else if left {
                (-dy, dx, !xy && !br)
            } else {
                (dy, -dx, !xy && !bl)
            }
        } else if left {
            if right {
                (dx, dy, false)
            } else {
                (dx, dy, !xy && !fr)
            }
        } else {
            (dx, dy, !xy && !fl)
        }
    } else if fwd {
        (0, 0, false)
    } else {
        (dx, dy, false)
    }
}

/// The turn forced by surrounding push cells (see `corner_move`).
pub fn _push_corner_move(options: &Options, world: &World, mx: i32, my: i32, dx: i32, dy: i32, _back_case: bool, _bug: bool, _dir: Direction) -> (r: (i32, i32, bool))
    requires
        world.wf(),
        coord_ok(mx, my),
        is_unit_step(dx as int, dy as int),
    ensures
        (r.0 as int, r.1 as int, r.2) == corner_move(options, world, mx as int, my as int, dx as int, dy as int),
{
    let blocked_xy = is_push_impossible_cell(options, world, mx, my);
    let blocked_fl = is_push_impossible_cell(options, world, mx + dy + dx, my + dy - dx);
    let blocked_fwd = is_push_impossible_cell(options, world, mx + dx, my + dy);
    let blocked_fr = is_push_impossible_cell(options, world, mx + dx - dy, my + dx + dy);
    let blocked_right = is_push_impossible_cell(options, world, mx - dy, my + dx);
    let blocked_br = is_push_impossible_cell(options, world, mx - dy - dx, my + dx - dy);
    let blocked_back = is_push_impossible_cell(options, world, mx - dx, my - dy);
    let blocked_bl = is_push_impossible_cell(options, world, mx + dy - dx, my - dx - dy);
    let blocked_left = is_push_impossible_cell(options, world, mx + dy, my - dx);
    let blocked_count: u8 = (if blocked_fwd { 1u8 } else { 0 }) + (if blocked_left { 1u8 } else { 0 }) + (if blocked_back { 1u8 } else { 0 }) + (if blocked_right { 1u8 } else { 0 });
    if blocked_count == 4 {
        return (dx, dy, !blocked_xy);
    }
    if blocked_count == 3 {
        if !blocked_fwd {
            return (dx, dy, !blocked_xy);
        }
        if !blocked_left {
            return (dy, -dx, !blocked_xy);
        }
        if !blocked_back {
            return (-dx, -dy, !blocked_xy);
        }
        return (-dy, dx, !blocked_xy);
    }
    if blocked_count == 2 {
        if blocked_fwd {
            if blocked_back {
                return (0, 0, false);
            } else if blocked_left {
                return (-dy, dx, !blocked_xy && !blocked_br);
            } else {
                return (dy, -dx, !blocked_xy && !blocked_bl);
            }
        } else if blocked_left {
            if blocked_right {
                return (dx, dy, false);
            } else {
                return (dx, dy, !blocked_xy && !blocked_fr);
            }
        } else {
            return (dx, dy, !blocked_xy && !blocked_fl);
        }
    }
    if blocked_fwd {
        (0, 0, false)
    } else {
        (dx, dy, false)
    }
}

/// The turn forced by surrounding push cells (see `corner_move`); the trace
/// output of the game is not produced here.
pub fn push_corner_move(options: &Options, world: &World, mx: i32, my: i32, dx: i32, dy: i32, back_case: bool, bug: bool, dir: Direction) -> (r: (i32, i32, bool))
    requires
        world.wf(),
        coord_ok(mx, my),
        is_unit_step(dx as int, dy as int),
    ensures
        (r.0 as int, r.1 as int, r.2) == corner_move(options, world, mx as int, my as int, dx as int, dy as int),
{
    _push_corner_move(options, world, mx, my, dx, dy, back_case, bug, dir)
}

/// Turning at `(wx, wy)` from `dir`: towards the side whose cell was visited
/// more often, to the right on a tie.
pub open spec fn most_visited_turn(o: &Options, w: &World, wx: i32, wy: i32, dir: Direction) -> Direction {
    let l = offset(wx, wy, left_delta(dir));
    let r = offset(wx, wy, right_delta(dir));
    spec_turn_lr(dir, stuff_at(o, w, l.0, l.1).3 > stuff_at(o, w, r.0, r.1).3)
}

/// The quarter turn towards the more visited side (see `most_visited_turn`).
pub fn get_most_visited_dir_from_xydir(options: &Options, world: &World, wx: i32, wy: i32, dir: Direction) -> (r: Direction)
    requires
        world.wf(),
        coord_ok(wx, wy),
    ensures
        r == most_visited_turn(options, world, wx, wy, dir),
{
    let lxy = coord_left(wx, wy, dir);
    let (_, _, _, visited_left) = get_cell_stuff_at(options, world, lxy.0, lxy.1);
    let rxy = coord_right(wx, wy, dir);
    let (_, _, _, visited_right) = get_cell_stuff_at(options, world, rxy.0, rxy.1);
    turn_lr(dir, visited_left > visited_right)
}


/// `c` as a wall of kind `tile` that was never visited.
pub open spec fn unvisited(tile: Tile, c: Cell) -> Cell {
    Cell { tile, pickup: c.pickup, tile_value: c.tile_value, pickup_value: c.pickup_value, visited: 0 }
}

/// What drilling with `strength` left makes of a cell, and whether the drill
/// stops there: a wall loses `strength` levels, and a wall it breaks becomes
/// empty and stops the drill; anything that is not a wall stops it unchanged.
pub open spec fn drill_cell(c: Cell, strength: int) -> (Option<Cell>, bool) {
    match c.tile {
        Tile::Wall4 => if strength == 1 {
            (Some(unvisited(Tile::Wall3, c)), false)
        } else if strength == 2 {
            (Some(unvisited(Tile::Wall2, c)), false)
        } else if strength == 3 {
            (Some(unvisited(Tile::Wall1, c)), false)
        } else {
            (Some(unvisited(Tile::Empty, c)), true)
        },
        Tile::Wall3 => if strength == 1 {
            (Some(unvisited(Tile::Wall2, c)), false)
        } else if strength == 2 {
            (Some(unvisited(Tile::Wall1, c)), false)
        } else {
            (Some(unvisited(Tile::Empty, c)), true)
        },
        Tile::Wall2 => if strength == 1 {
            (Some(unvisited(Tile::Wall1, c)), false)
        } else {
            (Some(unvisited(Tile::Empty, c)), true)
        },
        Tile::Wall1 => (Some(unvisited(Tile::Empty, c)), true),
        _ => (None, true),
    }
}

/// The cells the drill rewrites, from `(px, py)` on in steps of `(dx, dy)`, with
/// `remaining` walls to punch and `strength` left.
pub open spec fn drill_path(seed: u64, w: &World, remaining: int, strength: int, px: int, py: int, dx: int, dy: int) -> Seq<(int, int, Cell)>
    decreases strength,
{
    if remaining <= 0 || strength <= 0 {
        Seq::empty()
    } else {
        let (nc, stop) = drill_cell(w.cell_at(seed, px, py), strength);
        let rest = drill_path(seed, w, if stop { 0 } else { remaining - 1 }, strength - 1, px + dx, py + dy, dx, dy);
        match nc {
            Some(c) => seq![(px, py, c)] + rest,
            None => rest,
        }
    }
}

/// The stored rectangle after drilling: grown by every cell the drill reaches.
pub open spec fn drill_rect(seed: u64, w: &World, r: Rect, remaining: int, strength: int, px: int, py: int, dx: int, dy: int) -> Rect
    decreases strength,
{
    if remaining <= 0 || strength <= 0 {
        r
    } else {
        let (nc, stop) = drill_cell(w.cell_at(seed, px, py), strength);
        drill_rect(seed, w, grow_rect(r, px, py), if stop { 0 } else { remaining - 1 }, strength - 1, px + dx, py + dy, dx, dy)
    }
}

/// The cell at `(x, y)` once the rewrites in `edits` are laid over `w`.
pub open spec fn overlay(seed: u64, w: &World, edits: Seq<(int, int, Cell)>, x: int, y: int) -> Cell
    decreases edits.len(),
{
    if edits.len() == 0 {
        w.cell_at(seed, x, y)
    } else if edits.last().0 == x && edits.last().1 == y {
        edits.last().2
    } else {
        overlay(seed, w, edits.drop_last(), x, y)
    }
}

/// The drill's starting strength: one less than the hammers, at least zero.
pub open spec fn drill_strength(hammers: i32) -> int {
    if hammers > 0 { hammers - 1 } else { 0 }
}

/// Room for drilling `hammers` cells beyond the stored rectangle.
pub open spec fn drill_room(w: &World, hammers: i32) -> bool {
    &&& span_fits(w.min_x - drill_strength(hammers) - 1, w.max_x + drill_strength(hammers) + 1)
    &&& span_fits(w.min_y - drill_strength(hammers) - 1, w.max_y + drill_strength(hammers) + 1)
}

/// The lowest and the highest coordinate along one axis that a drill of
/// `strength` steps from `x` in direction `d` computes, one past its last cell
/// included.
pub open spec fn drill_span(x: int, d: int, strength: int) -> (int, int) {
    if d > 0 {
        (x + 1, x + strength + 1)
    } else if d < 0 {
        (x - strength - 1, x - 1)
    } else {
        (x, x)
    }
}

/// The smaller of `a` and `b`.
pub open spec fn lower(a: int, b: int) -> int {
    if a < b { a } else { b }
}

/// The larger of `a` and `b`.
pub open spec fn higher(a: int, b: int) -> int {
    if a > b { a } else { b }
}

/// Room in a 32-bit world for the stored rectangle together with every cell a
/// drill from `(x, y)` in direction `(dx, dy)` can reach.
pub open spec fn drill_room_from(w: &World, x: int, y: int, dx: int, dy: int, hammers: i32) -> bool {
    let sx = drill_span(x, dx, drill_strength(hammers));
    let sy = drill_span(y, dy, drill_strength(hammers));
    &&& span_fits(lower(w.min_x as int, sx.0), higher(w.max_x as int, sx.1))
    &&& span_fits(lower(w.min_y as int, sy.0), higher(w.max_y as int, sy.1))
}

proof fn lemma_overlay_push(seed: u64, w: &World, edits: Seq<(int, int, Cell)>, e: (int, int, Cell), x: int, y: int)
    ensures
        overlay(seed, w, edits.push(e), x, y) == (if e.0 == x && e.1 == y { e.2 } else { overlay(seed, w, edits, x, y) }),
{
    assert(edits.push(e).drop_last() =~= edits);
}

/// Drill on from the wall at `(x, y)` in direction `(dx, dy)`: with `hammers`
/// strength (less one) punch through up to `drills` further walls, weakening
/// each by the strength left (see `drill_path`). Without drills, or with at
/// most one hammer, nothing happens.
pub fn drill_deeper(drills: i32, hammers: i32, x: i32, y: i32, dx: i32, dy: i32, world: &mut World, options: &Options)
    requires
        old(world).wf(),
        is_unit_step(dx as int, dy as int),
        i32::MIN <= x + dx <= i32::MAX,
        i32::MIN <= y + dy <= i32::MAX,
        drills > 0 && drill_strength(hammers) > 0 ==> drill_room_from(old(world), x as int, y as int, dx as int,
            dy as int, hammers),
    ensures
        final(world).wf(),
        drills <= 0 || hammers <= 1 ==> *final(world) == *old(world),
        final(world).expandos@ == old(world).expandos@,
        final(world).fountains@ == old(world).fountains@,
        rect_of(final(world)) == drill_rect(options.seed, old(world), rect_of(old(world)), drills as int, drill_strength(hammers), x + dx, y + dy, dx as int, dy as int),
        forall|qx: int, qy: int| #[trigger] final(world).cell_at(options.seed, qx, qy) == overlay(options.seed, old(world),
            drill_path(options.seed, old(world), drills as int, drill_strength(hammers), x + dx, y + dy, dx as int, dy as int), qx, qy),
{
    let ghost w0 = *world;
    let ghost seed = options.seed;
    let ghost s0 = drill_strength(hammers);
    let ghost full = drill_path(seed, &w0, drills as int, s0, x + dx, y + dy, dx as int, dy as int);
    let ghost full_rect = drill_rect(seed, &w0, rect_of(&w0), drills as int, s0, x + dx, y + dy, dx as int, dy as int);
    let ghost mut done: Seq<(int, int, Cell)> = Seq::empty();
    let mut next_x = x + dx;
    let mut next_y = y + dy;
    let mut strength: i32 = if hammers > 0 { hammers - 1 } else { 0 };
    let mut remaining: i32 = drills;
    while remaining > 0 && strength > 0
        invariant
            w0.wf(),
            world.wf(),
            seed == options.seed,
            0 <= strength <= s0,
            s0 == drill_strength(hammers),
            remaining <= drills,
            drills <= 0 || s0 <= 0 ==> *world == w0,
            drills > 0 && s0 > 0 ==> drill_room_from(&w0, x as int, y as int, dx as int, dy as int, hammers),
            is_unit_step(dx as int, dy as int),
            next_x == x + (if dx == 0 { 0 } else if dx > 0 { s0 - strength + 1 } else { -(s0 - strength + 1) }),
            next_y == y + (if dy == 0 { 0 } else if dy > 0 { s0 - strength + 1 } else { -(s0 - strength + 1) }),
            forall|i: int| 0 <= i < done.len() ==> (dx != 0 ==> dist1((#[trigger] done[i]).0, x as int) < s0 - strength + 1) && (dy != 0 ==> dist1(done[i].1, y as int) < s0 - strength + 1),
            lower(w0.min_x as int, drill_span(x as int, dx as int, s0).0) <= world.min_x,
            world.max_x <= higher(w0.max_x as int, drill_span(x as int, dx as int, s0).1),
            lower(w0.min_y as int, drill_span(y as int, dy as int, s0).0) <= world.min_y,
            world.max_y <= higher(w0.max_y as int, drill_span(y as int, dy as int, s0).1),
            world.expandos@ == w0.expandos@,
            world.fountains@ == w0.fountains@,
            full == done + drill_path(seed, &w0, remaining as int, strength as int, next_x as int, next_y as int, dx as int, dy as int),
            full_rect == drill_rect(seed, &w0, rect_of(world), remaining as int, strength as int, next_x as int, next_y as int, dx as int, dy as int),
            forall|qx: int, qy: int| #[trigger] world.cell_at(seed, qx, qy) == overlay(seed, &w0, done, qx, qy),
        decreases strength,
    {
        let ghost wa = *world;
        ensure_cell_in_world(world, options, next_x, next_y);
        let cell = get_stored_cell(world, next_x, next_y);
        proof {
            assert(world.cell_at(seed, next_x as int, next_y as int) == wa.cell_at(seed, next_x as int, next_y as int));
            lemma_overlay_fresh(seed, &w0, done, next_x as int, next_y as int, x as int, y as int, dx as int, dy as int, s0 - strength + 1);
            assert(cell == w0.cell_at(seed, next_x as int, next_y as int));
        }
        let ghost wb = *world;
        let mut stop = false;
        let mut changed: Option<Cell> = None;
        if cell.tile == Tile::Wall4 {
            if strength == 1 {
                changed = Some(create_unvisited(Tile::Wall3, cell));
            } else if strength == 2 {
                changed = Some(create_unvisited(Tile::Wall2, cell));
            } else if strength == 3 {
                changed = Some(create_unvisited(Tile::Wall1, cell));
            } else {
                changed = Some(create_unvisited(Tile::Empty, cell));
                stop = true;
            }
        } else if cell.tile == Tile::Wall3 {
            if strength == 1 {
                changed = Some(create_unvisited(Tile::Wall2, cell));
            } else if strength == 2 {
                changed = Some(create_unvisited(Tile::Wall1, cell));
            } else {
                changed = Some(create_unvisited(Tile::Empty, cell));
                stop = true;
            }
        } else if cell.tile == Tile::Wall2 {
            if strength == 1 {
                changed = Some(create_unvisited(Tile::Wall1, cell));
            } else {
                changed = Some(create_unvisited(Tile::Empty, cell));
                stop = true;
            }
        } else if cell.tile == Tile::Wall1 {
            changed = Some(create_unvisited(Tile::Empty, cell));
            stop = true;
        } else {
            stop = true;
        }
        assert((changed, stop) == drill_cell(w0.cell_at(seed, next_x as int, next_y as int), strength as int));
        match changed {
            Some(c) => {
                set_cell_at(world, next_x, next_y, c);
                proof {
                    let e = (next_x as int, next_y as int, c);
                    assert forall|qx: int, qy: int| #[trigger] world.cell_at(seed, qx, qy) == overlay(seed, &w0, done.push(e), qx, qy) by {
                        lemma_overlay_push(seed, &w0, done, e, qx, qy);
                        assert(wb.cell_at(seed, qx, qy) == wa.cell_at(seed, qx, qy));
                    }
                    assert(full == done.push(e) + drill_path(seed, &w0, if stop { 0 } else { remaining - 1 }, strength - 1, next_x + dx, next_y + dy, dx as int, dy as int)) by {
                        assert(done + (seq![e] + drill_path(seed, &w0, if stop { 0 } else { remaining - 1 }, strength - 1, next_x + dx, next_y + dy, dx as int, dy as int))
                            =~= done.push(e) + drill_path(seed, &w0, if stop { 0 } else { remaining - 1 }, strength - 1, next_x + dx, next_y + dy, dx as int, dy as int));
                    }
                    let old_done = done;
                    done = done.push(e);
                    let j = s0 - strength + 1;
                    assert forall|i: int| 0 <= i < done.len() implies (dx != 0 ==> dist1((#[trigger] done[i]).0, x as int) < j + 1) && (dy != 0 ==> dist1(done[i].1, y as int) < j + 1) by {
                        if i < old_done.len() {
                            assert(done[i] == old_done[i]);
                        }
                    }
                }
            },
            None => {
                proof {
                    assert forall|qx: int, qy: int| #[trigger] world.cell_at(seed, qx, qy) == overlay(seed, &w0, done, qx, qy) by {
                        assert(wb.cell_at(seed, qx, qy) == wa.cell_at(seed, qx, qy));
                    }
                    let j = s0 - strength + 1;
                    assert forall|i: int| 0 <= i < done.len() implies (dx != 0 ==> dist1((#[trigger] done[i]).0, x as int) < j + 1) && (dy != 0 ==> dist1(done[i].1, y as int) < j + 1) by {
                    }
                }
            },
        }
        if stop {
            remaining = 1;
        }
        next_x = next_x + dx;
        next_y = next_y + dy;
        remaining = remaining - 1;
        strength = strength - 1;
    }
}

proof fn lemma_overlay_fresh(seed: u64, w: &World, done: Seq<(int, int, Cell)>, px: int, py: int, x: int, y: int, dx: int, dy: int, j: int)
    requires
        is_unit_step(dx, dy),
        px == x + (if dx == 0 { 0 } else if dx > 0 { j } else { -j }),
        py == y + (if dy == 0 { 0 } else if dy > 0 { j } else { -j }),
        forall|i: int| 0 <= i < done.len() ==> (dx != 0 ==> dist1((#[trigger] done[i]).0, x) < j) && (dy != 0 ==> dist1(done[i].1, y) < j),
    ensures
        overlay(seed, w, done, px, py) == w.cell_at(seed, px, py),
    decreases done.len(),
{
    if done.len() > 0 {
        assert((dx != 0 ==> dist1(done.last().0, x) < j) && (dy != 0 ==> dist1(done.last().1, y) < j));
        assert forall|i: int| 0 <= i < done.drop_last().len() implies (dx != 0 ==> dist1((#[trigger] done.drop_last()[i]).0, x) < j) && (dy != 0 ==> dist1(done.drop_last()[i].1, y) < j) by {
            assert(done.drop_last()[i] == done[i]);
        }
        lemma_overlay_fresh(seed, w, done.drop_last(), px, py, x, y, dx, dy, j);
    }
}

fn create_unvisited(tile: Tile, c: Cell) -> (r: Cell)
    ensures
        r == unvisited(tile, c),
{
    crate::world::create_unvisited_cell(tile, c.pickup, c.tile_value, c.pickup_value)
}

} // verus!
