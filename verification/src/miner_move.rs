//! One move of the miner: stepping onto the cell ahead, picking things up on
//! the way, bumping into walls, turning at push cells, and filling the sand
//! castle once the sandrone has carried the miner into it.

use vstd::prelude::*;
use crate::movable::{
    Movable, Direction, coord_ok, corner_move, push_corner_move, turn_lr, turn_back, spec_turn_lr,
    spec_turn_back, forward_delta, back_delta, left_delta, right_delta, fl_delta, fr_delta, back_left_delta,
    back_right_delta, coord_back, coord_left, coord_right, coord_fl, coord_fr, coord_bl, coord_br,
    delta_forward, drill_room, drill_strength,
};
use crate::cell::Cell;
use crate::tile::Tile;
use crate::pickup::Pickup;
use crate::options::Options;
use crate::inventory::Inventory;
use crate::expando::{Expando, ExpandoKind, create_expando, rect_of, grow_rect, Rect};
use crate::drone_san::{
    Sandrone, SandroneModel, is_unit_step, push_blocked, is_push_impossible_cell,
    spec_can_fill_at_magic_wall, can_magic_wall_bordering_empty_cell_be_push_cell,
};
use crate::miner::{
    Collected, has_pickup, inventory_after_pickup, pickup_fits, collected_of,
    move_miner_pickup_from_empty_tile, bump_wall_miner, bumped_wall,
};
use crate::world::{
    World, ensure_cell_in_world, get_stored_cell, set_cell_at, set_cell_tile_at,
    set_cell_tile_value_at, get_cell_tile_value_at, same_cells, can_reach, only_cell_changed, span_fits,
};

verus! {

/// `w2` is `w` with the cell at `(x, y)` (a stored one) replaced by `c`; nothing
/// else changed.
pub open spec fn rewritten(seed: u64, w: &World, w2: &World, x: int, y: int, c: Cell) -> bool {
    &&& w2.wf()
    &&& rect_of(w2) == rect_of(w)
    &&& w2.expandos@ == w.expandos@
    &&& w2.fountains@ == w.fountains@
    &&& forall|qx: int, qy: int| #[trigger] w2.cell_at(seed, qx, qy) == (if qx == x && qy == y { c } else { w.cell_at(seed, qx, qy) })
}

pub proof fn lemma_rewritten(seed: u64, w: &World, w2: &World, x: int, y: int, c: Cell)
    requires
        w.wf(),
        w.in_bounds(x, y),
        only_cell_changed(w, w2, x, y),
        w2.stored(x, y) == c,
    ensures
        rewritten(seed, w, w2, x, y, c),
{
    assert forall|qx: int, qy: int| #[trigger] w2.cell_at(seed, qx, qy) == (if qx == x && qy == y { c } else { w.cell_at(seed, qx, qy) }) by {
        if w.in_bounds(qx, qy) && (qx != x || qy != y) {
            assert(w2.stored(qx, qy) == w.stored(qx, qy));
        }
    }
}

/// Nothing changed: same rectangle, same cells, same expandos and fountains.
pub open spec fn unchanged(seed: u64, w: &World, w2: &World) -> bool {
    &&& w2.wf()
    &&& rect_of(w2) == rect_of(w)
    &&& w2.expandos@ == w.expandos@
    &&& w2.fountains@ == w.fountains@
    &&& same_cells(seed, w, w2)
}

/// A cell that hides an expando: empty ground holding an expando pickup.
pub open spec fn hides_expando(c: Cell) -> bool {
    c.tile == Tile::Empty && c.pickup == Pickup::Expando
}

/// The expando that starts where one is revealed.
pub open spec fn new_expando(x: i32, y: i32) -> Expando {
    Expando { kind: ExpandoKind::Water, x, y, volume: 9, speed: 100, ticks_since_last_update: 0, disabled: false }
}

/// Revealing the cell at `(x, y)`: a hidden expando turns the ground into
/// expando water (the pickup stays) and starts an expando there.
pub open spec fn revealed(seed: u64, w: &World, w2: &World, x: i32, y: i32) -> bool {
    let c = w.cell_at(seed, x as int, y as int);
    &&& w2.wf()
    &&& rect_of(w2) == rect_of(w)
    &&& w2.fountains@ == w.fountains@
    &&& w2.expandos@ == (if hides_expando(c) { w.expandos@.push(new_expando(x, y)) } else { w.expandos@ })
    &&& forall|qx: int, qy: int| #[trigger] w2.cell_at(seed, qx, qy) == (if qx == x && qy == y && hides_expando(c) {
        Cell { tile: Tile::ExpandoWater, ..c }
    } else {
        w.cell_at(seed, qx, qy)
    })
}

/// Reveal the cell at `(x, y)` (see `revealed`).
pub fn reveal_expando(options: &Options, world: &mut World, x: i32, y: i32)
    requires
        old(world).wf(),
        old(world).in_bounds(x as int, y as int),
    ensures
        revealed(options.seed, old(world), final(world), x, y),
{
    let ghost w0 = *world;
    let c = get_stored_cell(world, x, y);
    if c.tile == Tile::Empty && c.pickup == Pickup::Expando {
        set_cell_tile_at(options, world, x, y, Tile::ExpandoWater);
        proof {
            lemma_rewritten(options.seed, &w0, world, x as int, y as int, Cell { tile: Tile::ExpandoWater, ..c });
        }
        let ghost w1 = *world;
        world.expandos.push(create_expando(x, y));
        proof {
            assert(world.tiles == w1.tiles);
            assert forall|qx: int, qy: int| #[trigger] world.cell_at(options.seed, qx, qy) == w1.cell_at(options.seed, qx, qy) by {}
        }
    }
}

/// `(x, y)` lies outside the rectangle `r`.
pub open spec fn outside(r: Rect, x: int, y: int) -> bool {
    x < r.0 || x > r.2 || y < r.1 || y > r.3
}

/// The castle rectangle of a sandrone.
pub open spec fn castle_rect(s: SandroneModel) -> Rect {
    (s.expansion_min_x as int, s.expansion_min_y as int, s.expansion_max_x as int, s.expansion_max_y as int)
}

/// The heading of a unit step.
pub open spec fn dir_of_step(tx: int, ty: int) -> Direction {
    if tx == -1 && ty == 0 {
        Direction::Left
    } else if tx == 1 && ty == 0 {
        Direction::Right
    } else if tx == 0 && ty == 1 {
        Direction::Down
    } else {
        Direction::Up
    }
}

/// The flip-flop value: 1 becomes 0, anything else 1.
pub open spec fn flip(v: u32) -> u32 {
    if v == 1 { 0 } else { 1 }
}

/// A turn at a push or impassible cell ahead, from `m` facing step `(dx, dy)`:
/// the push cells around decide (see `corner_move`); when they leave it open the
/// miner in a castle turns away from the castle edge, and otherwise it flip-flops
/// on the current cell's value (left when it was 1), flipping that value.
pub open spec fn pushed(o: &Options, w: &World, w2: &World, m: Movable, m2: Movable, lifted: bool, r: Rect, dx: int, dy: int, fill: bool) -> bool {
    let t = corner_move(o, w, m.x as int, m.y as int, dx, dy);
    let open = t.0 == 0 && t.1 == 0;
    let away_left = lifted && outside(r, m.x + dy, m.y - dx);
    let away_right = lifted && outside(r, m.x - dy, m.y + dx);
    let v = w.stored(m.x as int, m.y as int).tile_value;
    &&& fill == (lifted && t.2)
    &&& m2 == Movable {
        dir: if !open {
            dir_of_step(t.0, t.1)
        } else if away_left {
            spec_turn_lr(m.dir, false)
        } else if away_right {
            spec_turn_lr(m.dir, true)
        } else {
            spec_turn_lr(m.dir, v == 1)
        },
        ..m
    }
    &&& if open && !away_left && !away_right {
        rewritten(o.seed, w, w2, m.x as int, m.y as int, Cell { tile_value: flip(v), ..w.stored(m.x as int, m.y as int) })
    } else {
        unchanged(o.seed, w, w2)
    }
}

/// Turn at a push or impassible cell ahead (see `pushed`). Returns whether the
/// current cell may be filled.
pub fn push_turn(options: &Options, world: &mut World, movable: &mut Movable, lifted: bool, min_x: i32, min_y: i32, max_x: i32, max_y: i32, dx: i32, dy: i32) -> (fill: bool)
    requires
        old(world).wf(),
        old(world).in_bounds(old(movable).x as int, old(movable).y as int),
        coord_ok(old(movable).x, old(movable).y),
        is_unit_step(dx as int, dy as int),
    ensures
        pushed(options, old(world), final(world), *old(movable), *final(movable), lifted,
            (min_x as int, min_y as int, max_x as int, max_y as int), dx as int, dy as int, fill),
{
    let ghost w0 = *world;
    let mx = movable.x;
    let my = movable.y;
    let (tx, ty, f) = push_corner_move(options, world, mx, my, dx, dy, false, false, movable.dir);
    let fill = lifted && f;
    if tx == -1 && ty == 0 {
        movable.dir = Direction::Left;
    } else if tx == 1 && ty == 0 {
        movable.dir = Direction::Right;
    } else if tx == 0 && ty == 1 {
        movable.dir = Direction::Down;
    } else if tx == 0 && ty == -1 {
        movable.dir = Direction::Up;
    } else if lifted && (mx + dy < min_x || mx + dy > max_x || my - dx < min_y || my - dx > max_y) {
        movable.dir = turn_lr(movable.dir, false);
    } else if lifted && (mx - dy < min_x || mx - dy > max_x || my + dx < min_y || my + dx > max_y) {
        movable.dir = turn_lr(movable.dir, true);
    } else {
        let v = get_cell_tile_value_at(options, world, mx, my);
        set_cell_tile_value_at(options, world, mx, my, if v == 1 { 0 } else { 1 });
        proof {
            lemma_rewritten(options.seed, &w0, world, mx as int, my as int, Cell { tile_value: flip(v), ..w0.stored(mx as int, my as int) });
        }
        movable.dir = turn_lr(movable.dir, v == 1);
    }
    fill
}


/// What the miner does with its current cell at the castle edge: 0 keeps it
/// open (it is the last open exit), 1 fills it, 2 leaves it open and makes it
/// the last open exit.
pub open spec fn castle_mark(o: &Options, w: &World, m: Movable, s: SandroneModel) -> int {
    let r = castle_rect(s);
    if m.x == s.last_empty_castle_exit_x && m.y == s.last_empty_castle_exit_y {
        0
    } else if spec_can_fill_at_magic_wall(o, w, m.x as int, m.y as int, r.0, r.1, r.2, r.3) {
        1
    } else {
        2
    }
}

/// The cell at `(qx, qy)` once the current cell is marked (see `castle_mark`).
pub open spec fn castle_marked(o: &Options, w: &World, m: Movable, s: SandroneModel, qx: int, qy: int) -> Cell {
    let c = w.cell_at(o.seed, qx, qy);
    if qx == m.x && qy == m.y && castle_mark(o, w, m, s) == 1 {
        Cell { tile: Tile::Impassible, ..c }
    } else {
        c
    }
}

/// The miner may turn onto `(x, y)` inside the castle: no push or impassible
/// cell, and inside the castle rectangle.
pub open spec fn castle_free(o: &Options, w: &World, r: Rect, x: int, y: int) -> bool {
    !push_blocked(o, w, x, y) && !outside(r, x, y)
}

/// A castle cell once the castle is complete: impassible cells become soil, and
/// values and pickups are cleared.
pub open spec fn castle_reset(c: Cell) -> Cell {
    Cell {
        tile: if c.tile == Tile::Impassible { Tile::Soil } else { c.tile },
        tile_value: 0,
        pickup: Pickup::Nothing,
        pickup_value: 0,
        ..c
    }
}

/// The sandrone after the miner marked its current cell (see `castle_mark`).
pub open spec fn castle_exit_kept(o: &Options, w: &World, m: Movable, s: SandroneModel) -> SandroneModel {
    if castle_mark(o, w, m, s) == 2 {
        SandroneModel { last_empty_castle_exit_x: m.x, last_empty_castle_exit_y: m.y, ..s }
    } else {
        s
    }
}

/// The miner at `m`, filling the castle, is about to step out of it with step
/// `(dx, dy)`. It marks its current cell (see `castle_mark`) and turns instead
/// of moving: flip-flopping on the cell's value when both sides are free (left
/// when it was 1, flipping it), to the one free side, or back. When nothing is
/// free the castle is complete: the current cell is filled, the sandrone stops
/// lifting at tick `ticks`, and every castle cell is reset (see `castle_reset`).
pub open spec fn castle_turned(o: &Options, w: &World, w2: &World, m: Movable, m2: Movable, s: SandroneModel, s2: SandroneModel, ticks: u32, dx: int, dy: int, finished: bool) -> bool {
    let r = castle_rect(s);
    let left = castle_free(o, w, r, m.x + dy, m.y - dx);
    let right = castle_free(o, w, r, m.x - dy, m.y + dx);
    let back = castle_free(o, w, r, m.x - dx, m.y - dy);
    let v = w.stored(m.x as int, m.y as int).tile_value;
    let s1 = castle_exit_kept(o, w, m, s);
    &&& finished == (!left && !right && !back)
    &&& m2 == Movable {
        dir: if left && right {
            spec_turn_lr(m.dir, v == 1)
        } else if left {
            spec_turn_lr(m.dir, true)
        } else if right {
            spec_turn_lr(m.dir, false)
        } else if back {
            spec_turn_back(m.dir)
        } else {
            m.dir
        },
        ..m
    }
    &&& s2 == (if finished { SandroneModel { post_castle: ticks, air_lifted: false, ..s1 } } else { s1 })
    &&& w2.wf()
    &&& rect_of(w2) == rect_of(w)
    &&& w2.expandos@ == w.expandos@
    &&& w2.fountains@ == w.fountains@
    &&& forall|qx: int, qy: int| #[trigger] w2.cell_at(o.seed, qx, qy) == (if left && right {
        if qx == m.x && qy == m.y {
            Cell { tile_value: flip(v), ..castle_marked(o, w, m, s, qx, qy) }
        } else {
            castle_marked(o, w, m, s, qx, qy)
        }
    } else if finished {
        let c = if qx == m.x && qy == m.y {
            Cell { tile: Tile::Impassible, ..castle_marked(o, w, m, s, qx, qy) }
        } else {
            castle_marked(o, w, m, s, qx, qy)
        };
        if !outside(r, qx, qy) { castle_reset(c) } else { c }
    } else {
        castle_marked(o, w, m, s, qx, qy)
    })
}

/// Reset every cell of the rectangle `min_x..=max_x` by `min_y..=max_y` (see
/// `castle_reset`).
fn reset_castle(options: &Options, world: &mut World, min_x: i32, min_y: i32, max_x: i32, max_y: i32)
    requires
        old(world).wf(),
        old(world).min_x <= min_x,
        max_x <= old(world).max_x,
        old(world).min_y <= min_y,
        max_y <= old(world).max_y,
    ensures
        final(world).wf(),
        rect_of(final(world)) == rect_of(old(world)),
        final(world).expandos@ == old(world).expandos@,
        final(world).fountains@ == old(world).fountains@,
        forall|qx: int, qy: int| #[trigger] final(world).cell_at(options.seed, qx, qy) == (if !outside((min_x as int, min_y as int, max_x as int, max_y as int), qx, qy) {
            castle_reset(old(world).cell_at(options.seed, qx, qy))
        } else {
            old(world).cell_at(options.seed, qx, qy)
        }),
{
    let ghost w0 = *world;
    let ghost seed = options.seed;
    let ghost r: Rect = (min_x as int, min_y as int, max_x as int, max_y as int);
    if min_x > max_x || min_y > max_y {
        return;
    }
    let mut y = min_y;
    while y <= max_y
        invariant
            min_x <= max_x,
            min_y <= y <= max_y + 1,
            w0.wf(),
            w0.min_x <= min_x,
            max_x <= w0.max_x,
            w0.min_y <= min_y,
            max_y <= w0.max_y,
            world.wf(),
            rect_of(world) == rect_of(&w0),
            world.expandos@ == w0.expandos@,
            world.fountains@ == w0.fountains@,
            r == (min_x as int, min_y as int, max_x as int, max_y as int),
            forall|qx: int, qy: int| #[trigger] world.cell_at(seed, qx, qy) == (if !outside(r, qx, qy) && qy < y {
                castle_reset(w0.cell_at(seed, qx, qy))
            } else {
                w0.cell_at(seed, qx, qy)
            }),
        decreases max_y + 1 - y,
    {
        let mut x = min_x;
        while x <= max_x
            invariant
                min_x <= x <= max_x + 1,
                min_y <= y <= max_y,
                w0.wf(),
                w0.min_x <= min_x,
                max_x <= w0.max_x,
                w0.min_y <= min_y,
                max_y <= w0.max_y,
                world.wf(),
                rect_of(world) == rect_of(&w0),
                world.expandos@ == w0.expandos@,
                world.fountains@ == w0.fountains@,
                r == (min_x as int, min_y as int, max_x as int, max_y as int),
                forall|qx: int, qy: int| #[trigger] world.cell_at(seed, qx, qy) == (if !outside(r, qx, qy) && (qy < y || (qy == y && qx < x)) {
                    castle_reset(w0.cell_at(seed, qx, qy))
                } else {
                    w0.cell_at(seed, qx, qy)
                }),
            decreases max_x + 1 - x,
        {
            let ghost wb = *world;
            let c = get_stored_cell(world, x, y);
            let nc = Cell {
                tile: if c.tile == Tile::Impassible { Tile::Soil } else { c.tile },
                tile_value: 0,
                pickup: Pickup::Nothing,
                pickup_value: 0,
                visited: c.visited,
            };
            set_cell_at(world, x, y, nc);
            proof {
                lemma_rewritten(seed, &wb, world, x as int, y as int, nc);
                assert(wb.cell_at(seed, x as int, y as int) == c);
            }
            x = x + 1;
        }
        y = y + 1;
    }
}

proof fn lemma_blocked_elsewhere(o: &Options, w: &World, w2: &World, x: int, y: int, c: Cell, qx: int, qy: int)
    requires
        rewritten(o.seed, w, w2, x, y, c),
        qx != x || qy != y,
    ensures
        push_blocked(o, w2, qx, qy) == push_blocked(o, w, qx, qy),
{
    assert(w2.cell_at(o.seed, qx, qy) == w.cell_at(o.seed, qx, qy));
}

/// Mark the current cell at the castle edge (see `castle_mark`).
fn castle_mark_cell(options: &Options, world: &mut World, movable: &Movable, sandrone: &mut Sandrone)
    requires
        old(world).wf(),
        old(world).in_bounds(movable.x as int, movable.y as int),
        coord_ok(movable.x, movable.y),
    ensures
        final(world).wf(),
        rect_of(final(world)) == rect_of(old(world)),
        final(world).expandos@ == old(world).expandos@,
        final(world).fountains@ == old(world).fountains@,
        forall|qx: int, qy: int| #[trigger] final(world).cell_at(options.seed, qx, qy)
            == castle_marked(options, old(world), *movable, old(sandrone)@, qx, qy),
        final(world).stored(movable.x as int, movable.y as int).tile_value == old(world).stored(movable.x as int, movable.y as int).tile_value,
        final(sandrone)@ == castle_exit_kept(options, old(world), *movable, old(sandrone)@),
{
    let ghost w0 = *world;
    let mx = movable.x;
    let my = movable.y;
    if mx == sandrone.last_empty_castle_exit_x && my == sandrone.last_empty_castle_exit_y {
    } else if can_magic_wall_bordering_empty_cell_be_push_cell(options, world, mx, my, sandrone.expansion_min_x,
        sandrone.expansion_min_y, sandrone.expansion_max_x, sandrone.expansion_max_y) {
        set_cell_tile_at(options, world, mx, my, Tile::Impassible);
        proof {
            lemma_rewritten(options.seed, &w0, world, mx as int, my as int, Cell { tile: Tile::Impassible, ..w0.stored(mx as int, my as int) });
        }
    } else {
        sandrone.last_empty_castle_exit_x = mx;
        sandrone.last_empty_castle_exit_y = my;
    }
}

/// Complete the castle: fill the current cell and reset the castle rectangle.
fn castle_finish(options: &Options, world: &mut World, mx: i32, my: i32, min_x: i32, min_y: i32, max_x: i32, max_y: i32)
    requires
        old(world).wf(),
        old(world).in_bounds(mx as int, my as int),
        old(world).min_x <= min_x,
        max_x <= old(world).max_x,
        old(world).min_y <= min_y,
        max_y <= old(world).max_y,
    ensures
        final(world).wf(),
        rect_of(final(world)) == rect_of(old(world)),
        final(world).expandos@ == old(world).expandos@,
        final(world).fountains@ == old(world).fountains@,
        forall|qx: int, qy: int| #[trigger] final(world).cell_at(options.seed, qx, qy) == ({
            let c = if qx == mx && qy == my {
                Cell { tile: Tile::Impassible, ..old(world).cell_at(options.seed, qx, qy) }
            } else {
                old(world).cell_at(options.seed, qx, qy)
            };
            if !outside((min_x as int, min_y as int, max_x as int, max_y as int), qx, qy) { castle_reset(c) } else { c }
        }),
{
    let ghost w0 = *world;
    set_cell_tile_at(options, world, mx, my, Tile::Impassible);
    proof {
        lemma_rewritten(options.seed, &w0, world, mx as int, my as int, Cell { tile: Tile::Impassible, ..w0.stored(mx as int, my as int) });
    }
    reset_castle(options, world, min_x, min_y, max_x, max_y);
}

/// Turn at the castle edge (see `castle_turned`). Returns whether the castle is
/// complete.
#[verifier::spinoff_prover]
pub fn castle_edge_turn(options: &Options, world: &mut World, movable: &mut Movable, sandrone: &mut Sandrone, ticks: u32, dx: i32, dy: i32) -> (finished: bool)
    requires
        old(world).wf(),
        old(world).in_bounds(old(movable).x as int, old(movable).y as int),
        coord_ok(old(movable).x, old(movable).y),
        is_unit_step(dx as int, dy as int),
        old(world).min_x <= old(sandrone).expansion_min_x,
        old(sandrone).expansion_max_x <= old(world).max_x,
        old(world).min_y <= old(sandrone).expansion_min_y,
        old(sandrone).expansion_max_y <= old(world).max_y,
    ensures
        castle_turned(options, old(world), final(world), *old(movable), *final(movable), old(sandrone)@, final(sandrone)@, ticks, dx as int, dy as int, finished),
        old(sandrone).wf() ==> final(sandrone).wf(),
{
    let ghost w0 = *world;
    let ghost seed = options.seed;
    let ghost m0 = *movable;
    let ghost s0 = sandrone@;
    let mx = movable.x;
    let my = movable.y;
    let min_x = sandrone.expansion_min_x;
    let min_y = sandrone.expansion_min_y;
    let max_x = sandrone.expansion_max_x;
    let max_y = sandrone.expansion_max_y;
    castle_mark_cell(options, world, movable, sandrone);
    let ghost wa = *world;
    proof {
        let cm = castle_marked(options, &w0, m0, s0, mx as int, my as int);
        assert(rewritten(seed, &w0, &wa, mx as int, my as int, cm));
        lemma_blocked_elsewhere(options, &w0, &wa, mx as int, my as int, cm, mx + dy, my - dx);
        lemma_blocked_elsewhere(options, &w0, &wa, mx as int, my as int, cm, mx - dy, my + dx);
        lemma_blocked_elsewhere(options, &w0, &wa, mx as int, my as int, cm, mx - dx, my - dy);
    }
    let avail_left = !is_push_impossible_cell(options, world, mx + dy, my - dx)
        && !(mx + dy < min_x || mx + dy > max_x || my - dx < min_y || my - dx > max_y);
    let avail_right = !is_push_impossible_cell(options, world, mx - dy, my + dx)
        && !(mx - dy < min_x || mx - dy > max_x || my + dx < min_y || my + dx > max_y);
    if avail_left && avail_right {
        let v = get_cell_tile_value_at(options, world, mx, my);
        set_cell_tile_value_at(options, world, mx, my, if v == 1 { 0 } else { 1 });
        proof {
            lemma_rewritten(seed, &wa, world, mx as int, my as int, Cell { tile_value: flip(v), ..wa.stored(mx as int, my as int) });
            assert(wa.cell_at(seed, mx as int, my as int) == castle_marked(options, &w0, m0, s0, mx as int, my as int));
            assert(wa.in_bounds(mx as int, my as int));
            assert(wa.stored(mx as int, my as int) == castle_marked(options, &w0, m0, s0, mx as int, my as int));
        }
        movable.dir = turn_lr(movable.dir, v == 1);
        return false;
    } else if avail_left {
        movable.dir = turn_lr(movable.dir, true);
        return false;
    } else if avail_right {
        movable.dir = turn_lr(movable.dir, false);
        return false;
    }
    let avail_back = !is_push_impossible_cell(options, world, mx - dx, my - dy)
        && !(mx - dx < min_x || mx - dx > max_x || my - dy < min_y || my - dy > max_y);
    if avail_back {
        movable.dir = turn_back(movable.dir);
        return false;
    }
    castle_finish(options, world, mx, my, min_x, min_y, max_x, max_y);
    sandrone.post_castle = ticks;
    sandrone.air_lifted = false;
    true
}

/// Where the magnet of rank `nth` picks up, relative to the cell the miner
/// left, facing `dir`: behind, left, right, front-left, front-right, back-left,
/// back-right; ranks past six do nothing.
pub open spec fn magnet_delta(nth: i32, dir: Direction) -> Option<(int, int)> {
    if nth == 0 {
        Some(back_delta(dir))
    } else if nth == 1 {
        Some(left_delta(dir))
    } else if nth == 2 {
        Some(right_delta(dir))
    } else if nth == 3 {
        Some(fl_delta(dir))
    } else if nth == 4 {
        Some(fr_delta(dir))
    } else if nth == 5 {
        Some(back_left_delta(dir))
    } else if nth == 6 {
        Some(back_right_delta(dir))
    } else {
        None
    }
}

/// The cells picked up when the miner at `m` steps to `(nx, ny)`, with the
/// first `k` magnets: the cell stepped onto first, then one per working magnet
/// in slot order.
pub open spec fn picks(m: Movable, nx: int, ny: int, nths: Seq<i32>, k: int) -> Seq<(int, int)>
    decreases k,
{
    if k <= 0 {
        seq![(nx, ny)]
    } else {
        let prev = picks(m, nx, ny, nths, k - 1);
        match magnet_delta(nths[k - 1], m.dir) {
            Some(d) => prev.push((m.x + d.0, m.y + d.1)),
            None => prev,
        }
    }
}

/// The cell at `(x, y)` after the pickups at `ps`, in order.
pub open spec fn after_picks(seed: u64, w: &World, ps: Seq<(int, int)>, x: int, y: int) -> Cell
    decreases ps.len(),
{
    if ps.len() == 0 {
        w.cell_at(seed, x, y)
    } else {
        let c = after_picks(seed, w, ps.drop_last(), x, y);
        if ps.last().0 == x && ps.last().1 == y && has_pickup(c) {
            Cell { pickup: Pickup::Nothing, pickup_value: 0, ..c }
        } else {
            c
        }
    }
}

/// What the last pickup of `ps` finds.
pub open spec fn found_last(seed: u64, w: &World, ps: Seq<(int, int)>) -> Cell {
    after_picks(seed, w, ps.drop_last(), ps.last().0, ps.last().1)
}

/// The inventory after the pickups at `ps`.
pub open spec fn inv_after_picks(seed: u64, w: &World, inv: Inventory, ps: Seq<(int, int)>, primed: u32) -> Inventory
    decreases ps.len(),
{
    if ps.len() == 0 {
        inv
    } else {
        inventory_after_pickup(inv_after_picks(seed, w, inv, ps.drop_last(), primed), found_last(seed, w, ps), primed)
    }
}

/// Every pickup at `ps` can be counted without overflow.
pub open spec fn picks_fit(seed: u64, w: &World, inv: Inventory, ps: Seq<(int, int)>, primed: u32) -> bool
    decreases ps.len(),
{
    ps.len() == 0 || (picks_fit(seed, w, inv, ps.drop_last(), primed)
        && pickup_fits(inv_after_picks(seed, w, inv, ps.drop_last(), primed), found_last(seed, w, ps), primed))
}

/// No pickup at `ps` found anything.
pub open spec fn none_found(seed: u64, w: &World, ps: Seq<(int, int)>) -> bool
    decreases ps.len(),
{
    ps.len() == 0 || (none_found(seed, w, ps.drop_last()) && !has_pickup(found_last(seed, w, ps)))
}

/// How many pickups at `ps` found energy.
pub open spec fn energy_found(seed: u64, w: &World, ps: Seq<(int, int)>) -> int
    decreases ps.len(),
{
    if ps.len() == 0 {
        0
    } else {
        energy_found(seed, w, ps.drop_last()) + (if found_last(seed, w, ps).pickup == Pickup::Energy { 1int } else { 0 })
    }
}

/// The points of the last diamond or stone picked up at `ps`, or 0.
pub open spec fn last_points(seed: u64, w: &World, ps: Seq<(int, int)>, primed: u32) -> int
    decreases ps.len(),
{
    if ps.len() == 0 {
        0
    } else {
        match collected_of(found_last(seed, w, ps), primed).points {
            Some(p) => p as int,
            None => last_points(seed, w, ps.drop_last(), primed),
        }
    }
}

/// The stored rectangle `r` grown by every cell of `ps`.
pub open spec fn rect_after_picks(r: Rect, ps: Seq<(int, int)>) -> Rect
    decreases ps.len(),
{
    if ps.len() == 0 {
        r
    } else {
        grow_rect(rect_after_picks(r, ps.drop_last()), ps.last().0, ps.last().1)
    }
}

/// Whether magnet `k` found something.
pub open spec fn magnet_hit(seed: u64, w: &World, m: Movable, nx: int, ny: int, nths: Seq<i32>, k: int) -> bool {
    match magnet_delta(nths[k], m.dir) {
        Some(d) => has_pickup(after_picks(seed, w, picks(m, nx, ny, nths, k), m.x + d.0, m.y + d.1)),
        None => false,
    }
}

/// The rectangle of `w` and the cells around `(x, y)` fit the 32-bit coordinates.
pub open spec fn step_room(w: &World, x: int, y: int) -> bool {
    &&& span_fits(if x - 1 < w.min_x { x - 1 } else { w.min_x as int }, if x + 1 > w.max_x { x + 1 } else { w.max_x as int })
    &&& span_fits(if y - 1 < w.min_y { y - 1 } else { w.min_y as int }, if y + 1 > w.max_y { y + 1 } else { w.max_y as int })
}

/// The cell whose visit count a step raises: the one stored at the grid
/// position of the cell stepped onto, found before the magnets' pickups grew
/// the world. When they grow it to the left or top, the count lands that many
/// cells left of or above the cell stepped onto. `r` is the stored rectangle
/// before the step.
pub open spec fn visit_spot(r: Rect, m: Movable, nx: int, ny: int, nths: Seq<i32>) -> (int, int) {
    let r0 = grow_rect(r, nx, ny);
    let rn = rect_after_picks(r, picks(m, nx, ny, nths, nths.len() as int));
    (nx - r0.0 + rn.0, ny - r0.1 + rn.1)
}

/// The miner at `m` steps forward onto a passable cell of `w`: it picks up
/// whatever lies there, then each magnet picks up its cell (see `picks`), one
/// more visit is counted (see `visit_spot`), and the miner stands on the cell. It
/// reports whether no pickup found anything (the step was dull), how
/// many found energy, the points of the last diamond or stone, and which
/// magnets found something.
pub open spec fn stepped(seed: u64, w: &World, w2: &World, m: Movable, m2: Movable, inv: Inventory, inv2: Inventory, primed: u32, nths: Seq<i32>, boring: bool, energy: int, points: int, hits: Seq<bool>) -> bool {
    let nx = m.x + forward_delta(m.dir).0;
    let ny = m.y + forward_delta(m.dir).1;
    let ps = picks(m, nx, ny, nths, nths.len() as int);
    let v = visit_spot(rect_of(w), m, nx, ny, nths);
    &&& w2.wf()
    &&& rect_of(w2) == rect_after_picks(rect_of(w), ps)
    &&& w2.expandos@ == w.expandos@
    &&& w2.fountains@ == w.fountains@
    &&& forall|qx: int, qy: int| #[trigger] w2.cell_at(seed, qx, qy) == (if qx == v.0 && qy == v.1 {
        Cell { visited: (after_picks(seed, w, ps, v.0, v.1).visited + 1) as u32, ..after_picks(seed, w, ps, v.0, v.1) }
    } else {
        after_picks(seed, w, ps, qx, qy)
    })
    &&& inv2 == inv_after_picks(seed, w, inv, ps, primed)
    &&& m2 == Movable { x: nx as i32, y: ny as i32, ..m }
    &&& boring == none_found(seed, w, ps)
    &&& energy == energy_found(seed, w, ps)
    &&& points == last_points(seed, w, ps, primed)
    &&& hits == Seq::new(nths.len(), |k: int| magnet_hit(seed, w, m, nx, ny, nths, k))
}

/// What a step found.
pub struct StepFound {
    /// No pickup found anything.
    pub boring: bool,
    /// How many pickups found energy.
    pub energy: u32,
    /// The points of the last diamond or stone, or 0.
    pub points: i32,
    /// For each magnet, whether it found something.
    pub hits: Vec<bool>,
}

proof fn lemma_picks_len(m: Movable, nx: int, ny: int, nths: Seq<i32>, k: int)
    requires
        0 <= k <= nths.len(),
    ensures
        1 <= picks(m, nx, ny, nths, k).len() <= k + 1,
    decreases k,
{
    if k > 0 {
        lemma_picks_len(m, nx, ny, nths, k - 1);
    }
}

proof fn lemma_energy_bound(seed: u64, w: &World, ps: Seq<(int, int)>)
    ensures
        0 <= energy_found(seed, w, ps) <= ps.len(),
    decreases ps.len(),
{
    if ps.len() > 0 {
        lemma_energy_bound(seed, w, ps.drop_last());
    }
}

proof fn lemma_picks_visited(seed: u64, w: &World, ps: Seq<(int, int)>, x: int, y: int)
    ensures
        after_picks(seed, w, ps, x, y).visited == w.cell_at(seed, x, y).visited,
        after_picks(seed, w, ps, x, y).tile == w.cell_at(seed, x, y).tile,
    decreases ps.len(),
{
    if ps.len() > 0 {
        lemma_picks_visited(seed, w, ps.drop_last(), x, y);
    }
}

proof fn lemma_fit_prefix(seed: u64, w: &World, inv: Inventory, m: Movable, nx: int, ny: int, nths: Seq<i32>, n: int, k: int, primed: u32)
    requires
        0 <= k <= n <= nths.len(),
        picks_fit(seed, w, inv, picks(m, nx, ny, nths, n), primed),
    ensures
        picks_fit(seed, w, inv, picks(m, nx, ny, nths, k), primed),
    decreases n,
{
    if k < n {
        let prev = picks(m, nx, ny, nths, n - 1);
        match magnet_delta(nths[n - 1], m.dir) {
            Some(d) => {
                assert(prev.push((m.x + d.0, m.y + d.1)).drop_last() =~= prev);
            },
            None => {},
        }
        lemma_fit_prefix(seed, w, inv, m, nx, ny, nths, n - 1, k, primed);
    }
}

proof fn lemma_delta_small(nth: i32, dir: Direction)
    ensures
        -1 <= forward_delta(dir).0 <= 1 && -1 <= forward_delta(dir).1 <= 1,
        magnet_delta(nth, dir) matches Some(d) ==> -1 <= d.0 <= 1 && -1 <= d.1 <= 1,
{
}

/// Pick up at `(px, py)` as pickup number `ps.len()` of the step.
fn pick_at(options: &Options, world: &mut World, inventory: &mut Inventory, primed: u32, px: i32, py: i32,
    Ghost(w0): Ghost<World>, Ghost(inv0): Ghost<Inventory>, Ghost(ps): Ghost<Seq<(int, int)>>, Ghost(full): Ghost<Seq<(int, int)>>) -> (r: Collected)
    requires
        old(world).wf(),
        can_reach(old(world), px as int, py as int),
        rect_of(old(world)) == rect_after_picks(rect_of(&w0), ps),
        old(world).expandos@ == w0.expandos@,
        old(world).fountains@ == w0.fountains@,
        forall|qx: int, qy: int| #[trigger] old(world).cell_at(options.seed, qx, qy) == after_picks(options.seed, &w0, ps, qx, qy),
        *old(inventory) == inv_after_picks(options.seed, &w0, inv0, ps, primed),
        full == ps.push((px as int, py as int)),
        picks_fit(options.seed, &w0, inv0, full, primed),
    ensures
        final(world).wf(),
        final(world).in_bounds(px as int, py as int),
        rect_of(final(world)) == rect_after_picks(rect_of(&w0), full),
        final(world).expandos@ == w0.expandos@,
        final(world).fountains@ == w0.fountains@,
        forall|qx: int, qy: int| #[trigger] final(world).cell_at(options.seed, qx, qy) == after_picks(options.seed, &w0, full, qx, qy),
        *final(inventory) == inv_after_picks(options.seed, &w0, inv0, full, primed),
        r == collected_of(found_last(options.seed, &w0, full), primed),
        found_last(options.seed, &w0, full) == after_picks(options.seed, &w0, ps, px as int, py as int),
        full.drop_last() == ps,
{
    assert(full.drop_last() =~= ps);
    let r = move_miner_pickup_from_empty_tile(options, world, inventory, primed, px, py);
    proof {
        assert forall|qx: int, qy: int| #[trigger] world.cell_at(options.seed, qx, qy) == after_picks(options.seed, &w0, full, qx, qy) by {
            assert(old(world).cell_at(options.seed, qx, qy) == after_picks(options.seed, &w0, ps, qx, qy));
        }
    }
    r
}


/// Step forward onto a passable cell (see `stepped`).
#[verifier::rlimit(40)]
pub fn step_onto(options: &Options, world: &mut World, movable: &mut Movable, inventory: &mut Inventory, primed: u32, magnet_nths: &Vec<i32>) -> (r: StepFound)
    requires
        old(world).wf(),
        step_room(old(world), old(movable).x as int, old(movable).y as int),
        magnet_nths@.len() < u32::MAX,
        picks_fit(options.seed, old(world), *old(inventory), picks(*old(movable), old(movable).x + forward_delta(old(movable).dir).0,
            old(movable).y + forward_delta(old(movable).dir).1, magnet_nths@, magnet_nths@.len() as int), primed),
        ({
            let v = visit_spot(rect_of(old(world)), *old(movable), old(movable).x + forward_delta(old(movable).dir).0,
                old(movable).y + forward_delta(old(movable).dir).1, magnet_nths@);
            old(world).cell_at(options.seed, v.0, v.1).visited < u32::MAX
        }),
    ensures
        stepped(options.seed, old(world), final(world), *old(movable), *final(movable), *old(inventory), *final(inventory),
            primed, magnet_nths@, r.boring, r.energy as int, r.points as int, r.hits@),
{
    let ghost w0 = *world;
    let ghost inv0 = *inventory;
    let ghost m0 = *movable;
    let ghost nths = magnet_nths@;
    let ghost seed = options.seed;
    let cx = movable.x;
    let cy = movable.y;
    let dir = movable.dir;
    let (dx, dy) = delta_forward(dir);
    proof {
        lemma_delta_small(0, dir);
    }
    let nx = cx + dx;
    let ny = cy + dy;
    let ghost n = nths.len() as int;
    let ghost full = picks(m0, nx as int, ny as int, nths, n);
    let ghost bx0: int = if cx - 1 < w0.min_x { cx - 1 } else { w0.min_x as int };
    let ghost bx2: int = if cx + 1 > w0.max_x { cx + 1 } else { w0.max_x as int };
    let ghost by0: int = if cy - 1 < w0.min_y { cy - 1 } else { w0.min_y as int };
    let ghost by2: int = if cy + 1 > w0.max_y { cy + 1 } else { w0.max_y as int };
    proof {
        lemma_fit_prefix(seed, &w0, inv0, m0, nx as int, ny as int, nths, n, 0, primed);
        assert(picks(m0, nx as int, ny as int, nths, 0) == Seq::<(int, int)>::empty().push((nx as int, ny as int)));
    }
    let col = pick_at(options, world, inventory, primed, nx, ny, Ghost(w0), Ghost(inv0), Ghost(Seq::empty()),
        Ghost(picks(m0, nx as int, ny as int, nths, 0)));
    let ax = nx - world.min_x;
    let ay = ny - world.min_y;
    let ghost r0 = rect_of(world);
    let mut boring = col.boring;
    let mut energy: u32 = if col.energy { 1 } else { 0 };
    let mut points: i32 = match col.points {
        Some(p) => p,
        None => 0,
    };
    let mut hits: Vec<bool> = Vec::new();
    let mut k: usize = 0;
    proof {
        let p0 = picks(m0, nx as int, ny as int, nths, 0);
        let e = Seq::<(int, int)>::empty();
        assert(p0.drop_last() =~= e);
        assert(none_found(seed, &w0, e));
        assert(energy_found(seed, &w0, e) == 0);
        assert(last_points(seed, &w0, e, primed) == 0);
        assert(rect_after_picks(rect_of(&w0), e) == rect_of(&w0));
        assert(found_last(seed, &w0, p0) == w0.cell_at(seed, nx as int, ny as int));
        assert(rect_after_picks(rect_of(&w0), p0) == grow_rect(rect_of(&w0), nx as int, ny as int));
        assert(hits@ =~= Seq::new(0, |i: int| magnet_hit(seed, &w0, m0, nx as int, ny as int, nths, i)));
    }
    while k < magnet_nths.len()
        invariant
            k <= nths.len(),
            magnet_nths@ == nths,
            nths.len() < u32::MAX,
            n == nths.len(),
            seed == options.seed,
            cx == m0.x && cy == m0.y && dir == m0.dir,
            (dx as int, dy as int) == forward_delta(dir),
            nx == cx + dx && ny == cy + dy,
            full == picks(m0, nx as int, ny as int, nths, n),
            picks_fit(seed, &w0, inv0, full, primed),
            world.wf(),
            world.in_bounds(nx as int, ny as int),
            rect_of(world) == rect_after_picks(rect_of(&w0), picks(m0, nx as int, ny as int, nths, k as int)),
            world.expandos@ == w0.expandos@,
            world.fountains@ == w0.fountains@,
            forall|qx: int, qy: int| #[trigger] world.cell_at(seed, qx, qy) == after_picks(seed, &w0, picks(m0, nx as int, ny as int, nths, k as int), qx, qy),
            *inventory == inv_after_picks(seed, &w0, inv0, picks(m0, nx as int, ny as int, nths, k as int), primed),
            boring == none_found(seed, &w0, picks(m0, nx as int, ny as int, nths, k as int)),
            energy == energy_found(seed, &w0, picks(m0, nx as int, ny as int, nths, k as int)),
            points == last_points(seed, &w0, picks(m0, nx as int, ny as int, nths, k as int), primed),
            hits@ == Seq::new(k as nat, |i: int| magnet_hit(seed, &w0, m0, nx as int, ny as int, nths, i)),
            bx0 <= world.min_x && world.max_x <= bx2 && by0 <= world.min_y && world.max_y <= by2,
            span_fits(bx0, bx2) && span_fits(by0, by2),
            bx0 <= cx - 1 && cx + 1 <= bx2 && by0 <= cy - 1 && cy + 1 <= by2,
            r0 == grow_rect(rect_of(&w0), nx as int, ny as int),
            ax == nx - r0.0 && ay == ny - r0.1,
            world.min_x <= r0.0 && r0.2 <= world.max_x && world.min_y <= r0.1 && r0.3 <= world.max_y,
        decreases nths.len() - k,
    {
        let ghost ps = picks(m0, nx as int, ny as int, nths, k as int);
        let nth = magnet_nths[k];
        proof {
            lemma_delta_small(nth, dir);
            lemma_picks_len(m0, nx as int, ny as int, nths, k as int);
            lemma_energy_bound(seed, &w0, ps);
        }
        let target: Option<(i32, i32)> = if nth == 0 {
            Some(coord_back(cx, cy, dir))
        } else if nth == 1 {
            Some(coord_left(cx, cy, dir))
        } else if nth == 2 {
            Some(coord_right(cx, cy, dir))
        } else if nth == 3 {
            Some(coord_fl(cx, cy, dir))
        } else if nth == 4 {
            Some(coord_fr(cx, cy, dir))
        } else if nth == 5 {
            Some(coord_bl(cx, cy, dir))
        } else if nth == 6 {
            Some(coord_br(cx, cy, dir))
        } else {
            None
        };
        let ghost hit_k = magnet_hit(seed, &w0, m0, nx as int, ny as int, nths, k as int);
        match target {
            Some((px, py)) => {
                let ghost ps1 = ps.push((px as int, py as int));
                proof {
                    assert(picks(m0, nx as int, ny as int, nths, k as int + 1) == ps1);
                    lemma_fit_prefix(seed, &w0, inv0, m0, nx as int, ny as int, nths, n, k as int + 1, primed);
                }
                let c = pick_at(options, world, inventory, primed, px, py, Ghost(w0), Ghost(inv0), Ghost(ps), Ghost(ps1));
                if !c.boring {
                    boring = false;
                }
                hits.push(!c.boring);
                if c.energy {
                    energy = energy + 1;
                }
                match c.points {
                    Some(p) => {
                        points = p;
                    },
                    None => {},
                }
            },
            None => {
                proof {
                    assert(picks(m0, nx as int, ny as int, nths, k as int + 1) == ps);
                }
                hits.push(false);
            },
        }
        proof {
            assert(hits@ =~= Seq::new((k + 1) as nat, |i: int| magnet_hit(seed, &w0, m0, nx as int, ny as int, nths, i)));
        }
        k = k + 1;
    }
    let ghost psn = picks(m0, nx as int, ny as int, nths, n);
    let vx = ax + world.min_x;
    let vy = ay + world.min_y;
    let c = get_stored_cell(world, vx, vy);
    proof {
        assert((vx as int, vy as int) == visit_spot(rect_of(&w0), m0, nx as int, ny as int, nths));
        lemma_picks_visited(seed, &w0, psn, vx as int, vy as int);
        assert(world.cell_at(seed, vx as int, vy as int) == c);
    }
    let ghost wb = *world;
    set_cell_at(world, vx, vy, Cell { visited: c.visited + 1, ..c });
    proof {
        lemma_rewritten(seed, &wb, world, vx as int, vy as int, Cell { visited: (c.visited + 1) as u32, ..c });
    }
    movable.x = nx;
    movable.y = ny;
    StepFound { boring, energy, points, hits }
}


/// What a move of the miner did, for the caller to settle the miner's energy,
/// boredom, points and magnets.
pub struct MoveOutcome {
    /// The miner bumped into a wall.
    pub bumped: bool,
    /// The miner filling the castle turned at its edge instead of moving.
    pub castle_turn: bool,
    /// That turn completed the castle.
    pub castle_finished: bool,
    /// The miner stepped forward and no pickup on the way found anything: a
    /// dull step, which raises the boredom level.
    pub was_boring: bool,
    /// How many energy pickups were taken.
    pub energy_pickups: u32,
    /// The points of the last diamond or stone taken, or 0.
    pub points: i32,
    /// For each magnet, in slot order, whether it found something.
    pub magnet_hits: Vec<bool>,
}

/// The strength of a wall tile: 4 down to 1, and 0 for anything else.
pub open spec fn wall_strength(t: Tile) -> int {
    match t {
        Tile::Wall4 => 4,
        Tile::Wall3 => 3,
        Tile::Wall2 => 2,
        Tile::Wall1 => 1,
        _ => 0,
    }
}

/// A tile the miner walks onto (anything but a wall, a push or an impassible tile).
pub open spec fn passable(t: Tile) -> bool {
    wall_strength(t) == 0 && t != Tile::Push && t != Tile::Impassible
}

/// `w2` is `w` grown to store `(x, y)`, showing the same cells.
pub open spec fn grown(seed: u64, w: &World, w2: &World, x: int, y: int) -> bool {
    &&& w2.wf()
    &&& rect_of(w2) == grow_rect(rect_of(w), x, y)
    &&& w2.expandos@ == w.expandos@
    &&& w2.fountains@ == w.fountains@
    &&& same_cells(seed, w, w2)
}

/// After a turn at a push cell or a step, the miner's previous cell `(fx, fy)`
/// is filled when `fill` allows it and the miner, now at `(px, py)`, is not on
/// the castle's last open exit; the filled cell is recorded with the sandrone.
pub open spec fn filled(seed: u64, w: &World, w2: &World, s: SandroneModel, s2: SandroneModel, fill: bool, px: int, py: int, fx: int, fy: int) -> bool {
    if fill && (px != s.last_empty_castle_exit_x || py != s.last_empty_castle_exit_y) {
        &&& rewritten(seed, w, w2, fx, fy, Cell { tile: Tile::Impassible, ..w.cell_at(seed, fx, fy) })
        &&& s2 == SandroneModel { impassable_tiles: s.impassable_tiles.push((fx as i32, fy as i32)), ..s }
    } else {
        &&& unchanged(seed, w, w2)
        &&& s2 == s
    }
}

/// Room for the drills behind the cell ahead, once the world stores it.
pub open spec fn move_drill_room(w: &World, x: int, y: int, hammers: i32) -> bool {
    let r = grow_rect(rect_of(w), x, y);
    &&& span_fits(r.0 - drill_strength(hammers) - 1, r.2 + drill_strength(hammers) + 1)
    &&& span_fits(r.1 - drill_strength(hammers) - 1, r.3 + drill_strength(hammers) + 1)
}

/// The miner `m0`, not at the castle edge, acts on the cell ahead of it in
/// `w2`: at a wall it bumps (see `bumped_wall`); at a push or impassible cell it
/// turns (see `pushed`); otherwise it steps (see `stepped`). After a turn at a
/// push cell or a step its previous cell may be filled (see `filled`), going
/// from `w3` to `w4`.
pub open spec fn moved_ahead(o: &Options, w2: &World, w3: &World, w4: &World,
    m0: Movable, m4: Movable, inv0: Inventory, inv4: Inventory, s0: SandroneModel, s4: SandroneModel,
    primed: u32, hammers: i32, drills: i32, nths: Seq<i32>,
    bumped: bool, boring: bool, energy: int, points: int, hits: Seq<bool>) -> bool {
    let d = forward_delta(m0.dir);
    let nx = m0.x + d.0;
    let ny = m0.y + d.1;
    let r = castle_rect(s0);
    let tile = w2.cell_at(o.seed, nx, ny).tile;
    let quiet = !boring && energy == 0 && points == 0 && hits == Seq::<bool>::empty();
    &&& bumped == (wall_strength(tile) > 0)
    &&& if wall_strength(tile) > 0 {
        &&& bumped_wall(o, w2, w4, m0, m4, inv0, inv4, wall_strength(tile), hammers, drills as int, nx as i32, ny as i32, d.0, d.1)
        &&& s4 == s0
        &&& quiet
    } else if tile == Tile::Push || tile == Tile::Impassible {
        let fill = s0.air_lifted && corner_move(o, w2, m0.x as int, m0.y as int, d.0, d.1).2;
        &&& pushed(o, w2, w3, m0, m4, s0.air_lifted, r, d.0, d.1, fill)
        &&& filled(o.seed, w3, w4, s0, s4, fill, m4.x as int, m4.y as int, m0.x as int, m0.y as int)
        &&& inv4 == inv0
        &&& quiet
    } else {
        let fill = s0.air_lifted && push_blocked(o, w2, m0.x - d.0, m0.y - d.1)
            && corner_move(o, w2, m0.x as int, m0.y as int, d.0, d.1).2;
        &&& stepped(o.seed, w2, w3, m0, m4, inv0, inv4, primed, nths, boring, energy, points, hits)
        &&& filled(o.seed, w3, w4, s0, s4, fill, m4.x as int, m4.y as int, m0.x as int, m0.y as int)
    }
}

/// One move of the miner `m0` facing its step `d` to `(nx, ny)`, through the
/// worlds `w1` (the cell ahead stored, see `grown`), `w2` (a hidden expando
/// there revealed, see `revealed`) and `w3`: at the castle edge it turns (see
/// `castle_turned`); otherwise it acts on the cell ahead (see `moved_ahead`).
pub open spec fn move_steps(o: &Options, w0: &World, w1: &World, w2: &World, w3: &World, w4: &World,
    m0: Movable, m4: Movable, inv0: Inventory, inv4: Inventory, s0: SandroneModel, s4: SandroneModel,
    ticks: u32, primed: u32, hammers: i32, drills: i32, nths: Seq<i32>,
    bumped: bool, castle_turn: bool, finished: bool, boring: bool, energy: int, points: int, hits: Seq<bool>) -> bool {
    let d = forward_delta(m0.dir);
    let nx = m0.x + d.0;
    let ny = m0.y + d.1;
    &&& grown(o.seed, w0, w1, nx, ny)
    &&& revealed(o.seed, w1, w2, nx as i32, ny as i32)
    &&& castle_turn == (s0.air_lifted && outside(castle_rect(s0), nx, ny))
    &&& if castle_turn {
        &&& castle_turned(o, w2, w4, m0, m4, s0, s4, ticks, d.0, d.1, finished)
        &&& inv4 == inv0
        &&& !bumped && !boring && energy == 0 && points == 0 && hits == Seq::<bool>::empty()
    } else {
        &&& !finished
        &&& moved_ahead(o, w2, w3, w4, m0, m4, inv0, inv4, s0, s4, primed, hammers, drills, nths, bumped, boring, energy, points, hits)
    }
}

proof fn lemma_rect_after_picks_grows(r: Rect, ps: Seq<(int, int)>, x: int, y: int)
    requires
        r.0 <= x <= r.2 && r.1 <= y <= r.3,
    ensures
        ({
            let r2 = rect_after_picks(r, ps);
            r2.0 <= x <= r2.2 && r2.1 <= y <= r2.3
        }),
    decreases ps.len(),
{
    if ps.len() > 0 {
        lemma_rect_after_picks_grows(r, ps.drop_last(), x, y);
    }
}

/// Worlds that show the same pickups everywhere.
pub open spec fn same_pickups(seed: u64, a: &World, b: &World) -> bool {
    forall|qx: int, qy: int| #![trigger a.cell_at(seed, qx, qy), b.cell_at(seed, qx, qy)]
        a.cell_at(seed, qx, qy).pickup == b.cell_at(seed, qx, qy).pickup
            && a.cell_at(seed, qx, qy).pickup_value == b.cell_at(seed, qx, qy).pickup_value
}

proof fn lemma_picks_pickup_blind(seed: u64, a: &World, b: &World, inv: Inventory, ps: Seq<(int, int)>, primed: u32)
    requires
        same_pickups(seed, a, b),
    ensures
        forall|qx: int, qy: int| #![trigger after_picks(seed, a, ps, qx, qy)]
            after_picks(seed, a, ps, qx, qy).pickup == after_picks(seed, b, ps, qx, qy).pickup
                && after_picks(seed, a, ps, qx, qy).pickup_value == after_picks(seed, b, ps, qx, qy).pickup_value,
        inv_after_picks(seed, a, inv, ps, primed) == inv_after_picks(seed, b, inv, ps, primed),
        picks_fit(seed, a, inv, ps, primed) == picks_fit(seed, b, inv, ps, primed),
    decreases ps.len(),
{
    if ps.len() > 0 {
        lemma_picks_pickup_blind(seed, a, b, inv, ps.drop_last(), primed);
        assert forall|qx: int, qy: int| #![trigger after_picks(seed, a, ps, qx, qy)]
            after_picks(seed, a, ps, qx, qy).pickup == after_picks(seed, b, ps, qx, qy).pickup
                && after_picks(seed, a, ps, qx, qy).pickup_value == after_picks(seed, b, ps, qx, qy).pickup_value by {
            assert(after_picks(seed, a, ps.drop_last(), qx, qy).pickup == after_picks(seed, b, ps.drop_last(), qx, qy).pickup);
        }
        let l = ps.last();
        assert(after_picks(seed, a, ps.drop_last(), l.0, l.1).pickup == after_picks(seed, b, ps.drop_last(), l.0, l.1).pickup);
    } else {
        assert forall|qx: int, qy: int| #![trigger after_picks(seed, a, ps, qx, qy)]
            after_picks(seed, a, ps, qx, qy).pickup == after_picks(seed, b, ps, qx, qy).pickup
                && after_picks(seed, a, ps, qx, qy).pickup_value == after_picks(seed, b, ps, qx, qy).pickup_value by {
            assert(a.cell_at(seed, qx, qy).pickup == b.cell_at(seed, qx, qy).pickup);
        }
    }
}


/// Act on the cell ahead, away from the castle edge (see `moved_ahead`).
#[verifier::rlimit(40)]
fn move_ahead(options: &Options, world: &mut World, movable: &mut Movable, inventory: &mut Inventory, sandrone: &mut Sandrone,
    primed: u32, hammers: i32, drills: i32, magnet_nths: &Vec<i32>) -> (r: (MoveOutcome, Ghost<World>))
    requires
        old(world).wf(),
        old(world).in_bounds(old(movable).x as int, old(movable).y as int),
        step_room(old(world), old(movable).x as int, old(movable).y as int),
        coord_ok((old(movable).x + forward_delta(old(movable).dir).0) as i32, (old(movable).y + forward_delta(old(movable).dir).1) as i32),
        0 <= hammers < i32::MAX,
        magnet_nths@.len() < u32::MAX,
        ({
            let nx = old(movable).x + forward_delta(old(movable).dir).0;
            let ny = old(movable).y + forward_delta(old(movable).dir).1;
            let c = old(world).cell_at(options.seed, nx, ny);
            &&& old(world).in_bounds(nx, ny)
            &&& wall_strength(c.tile) > 0 && drills > 0 ==> drill_room(old(world), hammers)
            &&& wall_strength(c.tile) > 0 && wall_strength(c.tile) - (1 + hammers) <= 0 ==> old(inventory).sand < u32::MAX
            &&& passable(c.tile) ==> {
                let v = visit_spot(rect_of(old(world)), *old(movable), nx, ny, magnet_nths@);
                old(world).cell_at(options.seed, v.0, v.1).visited < u32::MAX
            }
            &&& passable(c.tile) ==> picks_fit(options.seed, old(world), *old(inventory), picks(*old(movable), nx, ny, magnet_nths@, magnet_nths@.len() as int), primed)
        }),
    ensures
        final(world).wf(),
        old(sandrone).wf() ==> final(sandrone).wf(),
        !r.0.castle_turn && !r.0.castle_finished,
        moved_ahead(options, old(world), &r.1@, final(world), *old(movable), *final(movable), *old(inventory), *final(inventory),
            old(sandrone)@, final(sandrone)@, primed, hammers, drills, magnet_nths@, r.0.bumped, r.0.was_boring,
            r.0.energy_pickups as int, r.0.points as int, r.0.magnet_hits@),
{
    let ghost w2 = *world;
    let ghost seed = options.seed;
    let cx = movable.x;
    let cy = movable.y;
    let (dx, dy) = delta_forward(movable.dir);
    let nx = cx + dx;
    let ny = cy + dy;
    let min_x = sandrone.expansion_min_x;
    let min_y = sandrone.expansion_min_y;
    let max_x = sandrone.expansion_max_x;
    let max_y = sandrone.expansion_max_y;
    let tile = get_stored_cell(world, nx, ny).tile;
    let mut fill = false;
    let mut bumped = false;
    let mut boring = false;
    let mut energy: u32 = 0;
    let mut points: i32 = 0;
    let mut hits: Vec<bool> = Vec::new();
    let ghost mut w3 = w2;
    match tile {
        Tile::Wall4 | Tile::Wall3 | Tile::Wall2 | Tile::Wall1 => {
            let strength: i32 = match tile {
                Tile::Wall4 => 4,
                Tile::Wall3 => 3,
                Tile::Wall2 => 2,
                _ => 1,
            };
            bump_wall_miner(options, world, movable, inventory, strength, hammers, drills, nx, ny, dx, dy);
            bumped = true;
            proof {
                w3 = *world;
            }
        },
        Tile::Push | Tile::Impassible => {
            fill = push_turn(options, world, movable, sandrone.air_lifted, min_x, min_y, max_x, max_y, dx, dy);
            proof {
                w3 = *world;
            }
        },
        _ => {
            if sandrone.air_lifted {
                if is_push_impossible_cell(options, world, cx - dx, cy - dy) {
                    let (_tx, _ty, f) = push_corner_move(options, world, cx, cy, dx, dy, true, false, movable.dir);
                    if f {
                        fill = true;
                    }
                }
            }
            let found = step_onto(options, world, movable, inventory, primed, magnet_nths);
            boring = found.boring;
            energy = found.energy;
            points = found.points;
            hits = found.hits;
            proof {
                w3 = *world;
                lemma_rect_after_picks_grows(rect_of(&w2), picks(*old(movable), nx as int, ny as int, magnet_nths@, magnet_nths@.len() as int), cx as int, cy as int);
            }
        },
    }
    let ghost s3 = sandrone@;
    if fill && (movable.x != sandrone.last_empty_castle_exit_x || movable.y != sandrone.last_empty_castle_exit_y) {
        set_cell_tile_at(options, world, cx, cy, Tile::Impassible);
        proof {
            lemma_rewritten(seed, &w3, world, cx as int, cy as int, Cell { tile: Tile::Impassible, ..w3.stored(cx as int, cy as int) });
        }
        sandrone.impassable_tiles.push((cx, cy));
        proof {
            assert(sandrone@.impassable_tiles == s3.impassable_tiles.push((cx, cy)));
        }
    }
    let r = MoveOutcome {
        bumped,
        castle_turn: false,
        castle_finished: false,
        was_boring: boring,
        energy_pickups: energy,
        points,
        magnet_hits: hits,
    };
    proof {
        assert(hits@ =~= Seq::<bool>::empty() || !(wall_strength(tile) > 0 || tile == Tile::Push || tile == Tile::Impassible));
    }
    (r, Ghost(w3))
}

/// One move of the miner (see `move_steps`): the cell ahead is stored and a
/// hidden expando there revealed; then the miner turns at the castle edge,
/// bumps into a wall (with `hammers` hammers and `drills` drills), turns at a
/// push cell, or steps forward picking things up (with `primed` purity
/// scanners and magnets of the ranks `magnet_nths`, in slot order). `ticks`
/// is the world's tick, recorded when the castle is completed. Energy,
/// boredom, points and magnet counters are left to the caller (see
/// `MoveOutcome`).
pub fn move_miner(options: &Options, world: &mut World, movable: &mut Movable, inventory: &mut Inventory, sandrone: &mut Sandrone,
    ticks: u32, primed: u32, hammers: i32, drills: i32, magnet_nths: &Vec<i32>) -> (r: MoveOutcome)
    requires
        old(world).wf(),
        old(world).in_bounds(old(movable).x as int, old(movable).y as int),
        step_room(old(world), old(movable).x as int, old(movable).y as int),
        coord_ok((old(movable).x + forward_delta(old(movable).dir).0) as i32, (old(movable).y + forward_delta(old(movable).dir).1) as i32),
        0 <= hammers < i32::MAX,
        magnet_nths@.len() < u32::MAX,
        old(sandrone).air_lifted ==> old(world).min_x <= old(sandrone).expansion_min_x && old(sandrone).expansion_max_x <= old(world).max_x
            && old(world).min_y <= old(sandrone).expansion_min_y && old(sandrone).expansion_max_y <= old(world).max_y,
        ({
            let nx = old(movable).x + forward_delta(old(movable).dir).0;
            let ny = old(movable).y + forward_delta(old(movable).dir).1;
            let c = old(world).cell_at(options.seed, nx, ny);
            &&& wall_strength(c.tile) > 0 && drills > 0 ==> move_drill_room(old(world), nx, ny, hammers)
            &&& wall_strength(c.tile) > 0 && wall_strength(c.tile) - (1 + hammers) <= 0 ==> old(inventory).sand < u32::MAX
            &&& passable(c.tile) ==> {
                let v = visit_spot(grow_rect(rect_of(old(world)), nx, ny), *old(movable), nx, ny, magnet_nths@);
                old(world).cell_at(options.seed, v.0, v.1).visited < u32::MAX
            }
            &&& passable(c.tile) ==> picks_fit(options.seed, old(world), *old(inventory), picks(*old(movable), nx, ny, magnet_nths@, magnet_nths@.len() as int), primed)
        }),
    ensures
        final(world).wf(),
        old(sandrone).wf() ==> final(sandrone).wf(),
        exists|w1: World, w2: World, w3: World| #[trigger] move_steps(options, old(world), &w1, &w2, &w3, final(world),
            *old(movable), *final(movable), *old(inventory), *final(inventory), old(sandrone)@, final(sandrone)@,
            ticks, primed, hammers, drills, magnet_nths@, r.bumped, r.castle_turn, r.castle_finished, r.was_boring,
            r.energy_pickups as int, r.points as int, r.magnet_hits@),
{
    let ghost w0 = *world;
    let ghost m0 = *movable;
    let ghost inv0 = *inventory;
    let ghost s0 = sandrone@;
    let ghost seed = options.seed;
    let cx = movable.x;
    let cy = movable.y;
    let (dx, dy) = delta_forward(movable.dir);
    let nx = cx + dx;
    let ny = cy + dy;
    proof {
        lemma_delta_small(0, m0.dir);
    }
    ensure_cell_in_world(world, options, nx, ny);
    let ghost w1 = *world;
    reveal_expando(options, world, nx, ny);
    let ghost w2 = *world;
    proof {
        assert(w1.cell_at(seed, nx as int, ny as int) == w0.cell_at(seed, nx as int, ny as int));
    }
    if sandrone.air_lifted && (nx < sandrone.expansion_min_x || nx > sandrone.expansion_max_x
        || ny < sandrone.expansion_min_y || ny > sandrone.expansion_max_y) {
        let finished = castle_edge_turn(options, world, movable, sandrone, ticks, dx, dy);
        let r = MoveOutcome {
            bumped: false,
            castle_turn: true,
            castle_finished: finished,
            was_boring: false,
            energy_pickups: 0,
            points: 0,
            magnet_hits: Vec::new(),
        };
        proof {
            assert(r.magnet_hits@ =~= Seq::<bool>::empty());
            assert(move_steps(options, &w0, &w1, &w2, &w2, world, m0, *movable, inv0, *inventory, s0, sandrone@,
                ticks, primed, hammers, drills, magnet_nths@, r.bumped, r.castle_turn, r.castle_finished, r.was_boring,
                r.energy_pickups as int, r.points as int, r.magnet_hits@));
        }
        return r;
    }
    proof {
        let c0 = w0.cell_at(seed, nx as int, ny as int);
        let c2 = w2.cell_at(seed, nx as int, ny as int);
        assert(wall_strength(c2.tile) == wall_strength(c0.tile));
        assert(passable(c2.tile) == passable(c0.tile));
        if passable(c0.tile) {
            let v = visit_spot(rect_of(&w2), m0, nx as int, ny as int, magnet_nths@);
            assert(w1.cell_at(seed, v.0, v.1) == w0.cell_at(seed, v.0, v.1));
            assert(w2.cell_at(seed, v.0, v.1).visited == w0.cell_at(seed, v.0, v.1).visited);
            assert(same_pickups(seed, &w0, &w2)) by {
                assert forall|qx: int, qy: int| #![trigger w0.cell_at(seed, qx, qy), w2.cell_at(seed, qx, qy)]
                    w0.cell_at(seed, qx, qy).pickup == w2.cell_at(seed, qx, qy).pickup
                        && w0.cell_at(seed, qx, qy).pickup_value == w2.cell_at(seed, qx, qy).pickup_value by {
                    assert(w1.cell_at(seed, qx, qy) == w0.cell_at(seed, qx, qy));
                }
            }
            lemma_picks_pickup_blind(seed, &w0, &w2, inv0, picks(m0, nx as int, ny as int, magnet_nths@, magnet_nths@.len() as int), primed);
        }
    }
    let (r, Ghost(w3)) = move_ahead(options, world, movable, inventory, sandrone, primed, hammers, drills, magnet_nths);
    proof {
        assert(move_steps(options, &w0, &w1, &w2, &w3, world, m0, *movable, inv0, *inventory, s0, sandrone@,
            ticks, primed, hammers, drills, magnet_nths@, r.bumped, r.castle_turn, r.castle_finished, r.was_boring,
            r.energy_pickups as int, r.points as int, r.magnet_hits@));
    }
    r
}

} // verus!
