//! Jack's Compass: when charged it turns the miner towards the most wanted
//! pickup nearby.

use vstd::prelude::*;
use crate::movable::Direction;
use crate::pickup::{pickup_to_priority, spec_pickup_priority};
use crate::options::Options;
use crate::world::{World, stuff_at, get_cell_stuff_at};

verus! {

/// The `k`-th cell the compass looks at around `(mx, my)`: the four by four
/// square from two up and left of the miner to one down and right, row by row.
pub open spec fn compass_cell(mx: int, my: int, k: int) -> (int, int) {
    (mx - 2 + k % 4, my - 2 + k / 4)
}

/// The most wanted pickup among the first `k` cells the compass looks at, as
/// its priority and position: the first cell of the highest priority, or
/// `(0, 0, 0)` when none is wanted at all.
pub open spec fn compass_best(o: &Options, w: &World, mx: int, my: int, k: int) -> (u32, int, int)
    decreases k,
{
    if k <= 0 {
        (0, 0, 0)
    } else {
        let prev = compass_best(o, w, mx, my, k - 1);
        let p = compass_cell(mx, my, k - 1);
        let pr = spec_pickup_priority(stuff_at(o, w, p.0, p.1).1);
        if pr > prev.0 { (pr, p.0, p.1) } else { prev }
    }
}

/// The heading the compass sets for a target at `(tx, ty)`: towards it along
/// the axis of the larger distance, up or down on a tie.
pub open spec fn compass_dir(mx: int, my: int, tx: int, ty: int) -> Direction {
    let ax = if mx - tx < 0 { tx - mx } else { mx - tx };
    let ay = if my - ty < 0 { ty - my } else { my - ty };
    if ax > ay {
        if tx < mx { Direction::Left } else { Direction::Right }
    } else {
        if ty < my { Direction::Up } else { Direction::Down }
    }
}

/// A charged compass at the miner's `(mx, my)`: the priority of the most wanted
/// pickup around (see `compass_best`) and the heading towards it (see
/// `compass_dir`), or `None` when nothing around is wanted.
pub fn jacks_compass(options: &Options, world: &World, mx: i32, my: i32) -> (r: Option<(u32, Direction)>)
    requires
        world.wf(),
        i32::MIN + 2 <= mx <= i32::MAX - 2,
        i32::MIN + 2 <= my <= i32::MAX - 2,
    ensures
        ({
            let b = compass_best(options, world, mx as int, my as int, 16);
            r == (if b.0 > 0 { Some((b.0, compass_dir(mx as int, my as int, b.1, b.2))) } else { None })
        }),
{
    let mut highest: u32 = 0;
    let mut tox: i32 = 0;
    let mut toy: i32 = 0;
    let mut y = my - 2;
    while y < my + 2
        invariant
            i32::MIN + 2 <= mx <= i32::MAX - 2,
            i32::MIN + 2 <= my <= i32::MAX - 2,
            my - 2 <= y <= my + 2,
            world.wf(),
            compass_best(options, world, mx as int, my as int, (y - (my - 2)) * 4) == (highest, tox as int, toy as int),
            mx - 2 <= tox <= mx + 1 || (highest == 0 && tox == 0),
            my - 2 <= toy <= my + 1 || (highest == 0 && toy == 0),
        decreases my + 2 - y,
    {
        let mut x = mx - 2;
        while x < mx + 2
            invariant
                i32::MIN + 2 <= mx <= i32::MAX - 2,
                i32::MIN + 2 <= my <= i32::MAX - 2,
                my - 2 <= y < my + 2,
                mx - 2 <= x <= mx + 2,
                world.wf(),
                compass_best(options, world, mx as int, my as int, (y - (my - 2)) * 4 + (x - (mx - 2))) == (highest, tox as int, toy as int),
                mx - 2 <= tox <= mx + 1 || (highest == 0 && tox == 0),
                my - 2 <= toy <= my + 1 || (highest == 0 && toy == 0),
            decreases mx + 2 - x,
        {
            let ghost k: int = (y - (my - 2)) * 4 + (x - (mx - 2));
            proof {
                assert(compass_cell(mx as int, my as int, k) == (x as int, y as int)) by (nonlinear_arith)
                    requires
                        k == (y - (my - 2)) * 4 + (x - (mx - 2)),
                        0 <= x - (mx - 2) < 4,
                        0 <= y - (my - 2) < 4;
            }
            let pickup = get_cell_stuff_at(options, world, x, y).1;
            let prio = pickup_to_priority(pickup);
            if prio > highest {
                highest = prio;
                tox = x;
                toy = y;
            }
            x = x + 1;
        }
        y = y + 1;
    }
    if highest > 0 {
        let ax = if mx - tox < 0 { tox - mx } else { mx - tox };
        let ay = if my - toy < 0 { toy - my } else { my - toy };
        let dir = if ax > ay {
            if tox < mx { Direction::Left } else { Direction::Right }
        } else {
            if toy < my { Direction::Up } else { Direction::Down }
        };
        Some((highest, dir))
    } else {
        None
    }
}

} // verus!
