//! The windrone: a drone that, given enough wind, flies to the nearest expando
//! or fountain, turns an expando into a fountain or drains a fountain's pool,
//! and flies back to the miner.

use vstd::prelude::*;
use vstd::string::*;
use crate::movable::{Movable, Direction};
use crate::tile::Tile;
use crate::pickup::Pickup;
use crate::options::Options;
use crate::expando::Expando;
use crate::fountain::{Fountain, is_pool, create_fountain};
use crate::drone_san::fly_step;
use crate::world::{World, tile_at, stuff_at, get_cell_tile_at, get_cell_stuff_at, get_cell_pickup_at, set_cell_tile_at, set_cell_tile_value_at, set_cell_pickup_at, set_cell_pickup_value_at, CellEdit, cells_edited, lemma_cells_edited_step, lemma_same_grid_reads, edits_in_bounds};

verus! {

/// The `what` code of a windrone's movable.
pub const WHAT_WINDRONE: i32 = 3;

pub const WINDRONE_IDLE: &'static str = "Idle. Waiting for enough wind...";
pub const WINDRONE_WAITING_WIND: &'static str = "Waiting for enough wind to take off...";
pub const WINDRONE_WAITING_GOAL: &'static str = "Waiting for expando to move to...";
pub const WINDRONE_READY: &'static str = "Have wind and at least one destination; ready!";
pub const WINDRONE_TO_GOAL: &'static str = "Found an expando! Flying to nearest expando...";
pub const WINDRONE_HOME: &'static str = "Finished at expando. Flying back to miner...";
pub const WINDRONE_RETURNED: &'static str = "Returned to miner";

/// What a windrone is doing.
#[derive(Debug, Clone, Copy, PartialEq, Eq, Structural)]
pub enum WindroneState {
    /// Not yet built.
    Unconstructed,
    /// Waiting for enough wind pickups.
    WaitingForWind,
    /// Has wind but waits for an expando.
    WaitingForGoal,
    /// About to take off; the miner acts on this.
    ReadyForTakeOff,
    /// Flying towards the nearest expando or fountain.
    FlyingToGoal,
    /// Done at the goal, flying back to the miner.
    FlyingHome,
    /// Back with the miner; the miner acts on this.
    ReturnedHome,
}

/// A drone that turns expandos into fountains.
#[derive(Debug)]
pub struct Windrone {
    pub state: WindroneState,
    /// What the windrone is doing, in words.
    pub status_desc: String,
    pub movable: Movable,
}

/// The windrone as plain values.
pub struct WindroneModel {
    pub state: WindroneState,
    pub status: Seq<char>,
    pub movable: Movable,
}

impl View for Windrone {
    type V = WindroneModel;

    open spec fn view(&self) -> WindroneModel {
        WindroneModel { state: self.state, status: self.status_desc@, movable: self.movable }
    }
}

/// The status text that `set_windrone_state` writes for a state.
pub open spec fn windrone_status(state: WindroneState) -> Seq<char> {
    match state {
        WindroneState::Unconstructed => WINDRONE_IDLE@,
        WindroneState::WaitingForWind => WINDRONE_WAITING_WIND@,
        WindroneState::WaitingForGoal => WINDRONE_WAITING_GOAL@,
        WindroneState::ReadyForTakeOff => WINDRONE_READY@,
        WindroneState::FlyingToGoal => WINDRONE_TO_GOAL@,
        WindroneState::FlyingHome => WINDRONE_HOME@,
        WindroneState::ReturnedHome => WINDRONE_RETURNED@,
    }
}

/// `m` switched to `state`, with that state's status text.
pub open spec fn wind_state(m: WindroneModel, state: WindroneState) -> WindroneModel {
    WindroneModel { state, status: windrone_status(state), ..m }
}

/// `m` moved to `p`.
pub open spec fn wind_moved(m: WindroneModel, p: (int, int)) -> WindroneModel {
    WindroneModel { movable: Movable { x: p.0 as i32, y: p.1 as i32, ..m.movable }, ..m }
}

/// A new windrone at the origin, not yet built, facing up.
pub fn create_windrone() -> (r: Windrone)
    ensures
        r.state == WindroneState::Unconstructed,
        r.status_desc@ == WINDRONE_IDLE@,
        r.movable == (Movable { what: WHAT_WINDRONE, x: 0, y: 0, dir: Direction::Up, disabled: false }),
{
    Windrone {
        state: WindroneState::Unconstructed,
        status_desc: String::from_str(WINDRONE_IDLE),
        movable: Movable { what: WHAT_WINDRONE, x: 0, y: 0, dir: Direction::Up, disabled: false },
    }
}

/// Switch to `state` and describe it. A windrone is never switched back to
/// `Unconstructed`.
pub fn set_windrone_state(windrone: &mut Windrone, state: WindroneState)
    requires
        state != WindroneState::Unconstructed,
    ensures
        final(windrone)@ == wind_state(old(windrone)@, state),
{
    windrone.status_desc = match state {
        WindroneState::Unconstructed => String::from_str(WINDRONE_IDLE),
        WindroneState::WaitingForWind => String::from_str(WINDRONE_WAITING_WIND),
        WindroneState::WaitingForGoal => String::from_str(WINDRONE_WAITING_GOAL),
        WindroneState::ReadyForTakeOff => String::from_str(WINDRONE_READY),
        WindroneState::FlyingToGoal => String::from_str(WINDRONE_TO_GOAL),
        WindroneState::FlyingHome => String::from_str(WINDRONE_HOME),
        WindroneState::ReturnedHome => String::from_str(WINDRONE_RETURNED),
    };
    windrone.state = state;
}

/// Move the windrone one step towards `(to_x, to_y)` (see `fly_step`). Returns
/// whether it was already there.
pub fn move_windrone_towards(windrone: &mut Windrone, to_x: i32, to_y: i32) -> (r: bool)
    ensures
        r == (old(windrone).movable.x == to_x && old(windrone).movable.y == to_y),
        final(windrone)@ == wind_moved(old(windrone)@, fly_step(
            old(windrone).movable.x as int,
            old(windrone).movable.y as int,
            to_x as int,
            to_y as int,
        )),
{
    let bx = windrone.movable.x;
    let by = windrone.movable.y;
    if bx == to_x && by == to_y {
        return true;
    }
    let dx: i64 = to_x as i64 - bx as i64;
    let dy: i64 = to_y as i64 - by as i64;
    let adx: i64 = if dx < 0 { -dx } else { dx };
    let ady: i64 = if dy < 0 { -dy } else { dy };
    if adx > ady {
        windrone.movable.x = if dx < 0 { bx - 1 } else { bx + 1 };
    } else {
        windrone.movable.y = if dy < 0 { by - 1 } else { by + 1 };
    }
    false
}

/// The best target found so far in a search for the closest one.
#[derive(Debug, Clone, Copy, PartialEq, Eq, Structural)]
pub struct Closest {
    /// Whether this search found an active target.
    pub found: bool,
    pub index: usize,
    pub x: i32,
    pub y: i32,
    /// The squared distance of the target at `(x, y)`; `None` before any target.
    pub dist: Option<u64>,
}

/// No target yet.
pub open spec fn no_target() -> Closest {
    Closest { found: false, index: 0, x: 0, y: 0, dist: None }
}

/// The squared distance from `(bx, by)` to `(x, y)`.
pub open spec fn sq_dist(x: int, y: int, bx: int, by: int) -> int {
    (x - bx) * (x - bx) + (y - by) * (y - by)
}

/// A target at squared distance `d` and `(x, y)` replaces the best so far: it is
/// where the drone is, or closer, or as close and right of the best or at the
/// same spot. Distances compare as the exact square roots do.
pub open spec fn replaces(best: Closest, d: int, x: int, y: int) -> bool {
    match best.dist {
        None => true,
        Some(bd) => d == 0 || bd > d || (bd == d && (best.x < x || (best.x == x && best.y == y))),
    }
}

/// The coordinates and the disabled flag of each candidate.
pub type Candidate = (i32, i32, bool);

/// Scanning candidates from index `k` on, starting from `best`.
pub open spec fn scan_closest(c: Seq<Candidate>, bx: int, by: int, best: Closest, k: int) -> Closest
    decreases c.len() - k,
{
    if k >= c.len() || k < 0 {
        best
    } else if c[k].2 {
        scan_closest(c, bx, by, best, k + 1)
    } else {
        let d = sq_dist(c[k].0 as int, c[k].1 as int, bx, by);
        let b = Closest { found: true, ..best };
        if replaces(best, d, c[k].0 as int, c[k].1 as int) {
            scan_closest(c, bx, by, Closest { found: true, index: k as usize, x: c[k].0, y: c[k].1, dist: Some(d as u64) }, k + 1)
        } else {
            scan_closest(c, bx, by, b, k + 1)
        }
    }
}

/// The candidates of a list of expandos.
pub open spec fn expando_candidates(s: Seq<Expando>) -> Seq<Candidate> {
    s.map_values(|e: Expando| (e.x, e.y, e.disabled))
}

/// The candidates of a list of fountains.
pub open spec fn fountain_candidates(s: Seq<Fountain>) -> Seq<Candidate> {
    s.map_values(|f: Fountain| (f.x, f.y, f.disabled))
}

/// Every active candidate lies within `2^24` of `(bx, by)` on both axes, where
/// squared distances stay below `2^49` and compare exactly in double precision.
pub open spec fn candidates_near(c: Seq<Candidate>, bx: int, by: int) -> bool {
    forall|i: int| 0 <= i < c.len() && !(#[trigger] c[i]).2 ==> -0x100_0000 < c[i].0 - bx < 0x100_0000
        && -0x100_0000 < c[i].1 - by < 0x100_0000
}

proof fn lemma_sq_dist_bound(x: int, y: int, bx: int, by: int)
    requires
        -0x100_0000 < x - bx < 0x100_0000,
        -0x100_0000 < y - by < 0x100_0000,
    ensures
        0 <= sq_dist(x, y, bx, by) < 0x2_0000_0000_0000,
{
    let a = x - bx;
    let b = y - by;
    assert(0 <= a * a < 0x1_0000_0000_0000) by (nonlinear_arith)
        requires
            -0x100_0000 < a < 0x100_0000,
    ;
    assert(0 <= b * b < 0x1_0000_0000_0000) by (nonlinear_arith)
        requires
            -0x100_0000 < b < 0x100_0000,
    ;
}

fn dist_to(x: i32, y: i32, bx: i32, by: i32) -> (r: u64)
    requires
        -0x100_0000 < x - bx < 0x100_0000,
        -0x100_0000 < y - by < 0x100_0000,
    ensures
        r == sq_dist(x as int, y as int, bx as int, by as int),
{
    proof {
        lemma_sq_dist_bound(x as int, y as int, bx as int, by as int);
    }
    let a: i64 = x as i64 - bx as i64;
    let b: i64 = y as i64 - by as i64;
    assert(0 <= a * a < 0x1_0000_0000_0000) by (nonlinear_arith)
        requires
            -0x100_0000 < a < 0x100_0000,
    ;
    assert(0 <= b * b < 0x1_0000_0000_0000) by (nonlinear_arith)
        requires
            -0x100_0000 < b < 0x100_0000,
    ;
    (a * a + b * b) as u64
}

fn closer(best: Closest, d: u64, x: i32, y: i32) -> (r: bool)
    ensures
        r == replaces(best, d as int, x as int, y as int),
{
    match best.dist {
        None => true,
        Some(bd) => d == 0 || bd > d || (bd == d && (best.x < x || (best.x == x && best.y == y))),
    }
}

/// The closest active expando to `(bx, by)` (see `scan_closest`).
pub fn find_closest_expando(expandos: &Vec<Expando>, bx: i32, by: i32) -> (r: Closest)
    requires
        candidates_near(expando_candidates(expandos@), bx as int, by as int),
    ensures
        r == scan_closest(expando_candidates(expandos@), bx as int, by as int, no_target(), 0),
        r.found ==> r.index < expandos@.len(),
        !r.found ==> r.index == 0,
{
    let ghost c = expando_candidates(expandos@);
    let mut best = Closest { found: false, index: 0, x: 0, y: 0, dist: None };
    let mut i: usize = 0;
    while i < expandos.len()
        invariant
            i <= expandos@.len(),
            c == expando_candidates(expandos@),
            candidates_near(c, bx as int, by as int),
            scan_closest(c, bx as int, by as int, no_target(), 0) == scan_closest(c, bx as int, by as int, best, i as int),
            best.found ==> best.index < i,
            !best.found ==> best.index == 0,
        decreases expandos@.len() - i,
    {
        let e = expandos[i];
        assert(c[i as int] == (e.x, e.y, e.disabled));
        if !e.disabled {
            let d = dist_to(e.x, e.y, bx, by);
            if closer(best, d, e.x, e.y) {
                best = Closest { found: true, index: i, x: e.x, y: e.y, dist: Some(d) };
            } else {
                best = Closest { found: true, ..best };
            }
        }
        i = i + 1;
    }
    best
}

/// The closest active fountain to `(bx, by)`, starting from the best expando so
/// far: the result only counts as found when a fountain was seen.
pub fn find_closest_fountain(fountains: &Vec<Fountain>, bx: i32, by: i32, start: Closest) -> (r: Closest)
    requires
        candidates_near(fountain_candidates(fountains@), bx as int, by as int),
    ensures
        r == scan_closest(fountain_candidates(fountains@), bx as int, by as int, Closest { found: false, index: 0, ..start }, 0),
{
    let ghost c = fountain_candidates(fountains@);
    let mut best = Closest { found: false, index: 0, ..start };
    let mut i: usize = 0;
    while i < fountains.len()
        invariant
            i <= fountains@.len(),
            c == fountain_candidates(fountains@),
            candidates_near(c, bx as int, by as int),
            scan_closest(c, bx as int, by as int, Closest { found: false, index: 0, ..start }, 0) == scan_closest(c, bx as int, by as int, best, i as int),
        decreases fountains@.len() - i,
    {
        let fx = fountains[i].x;
        let fy = fountains[i].y;
        let disabled = fountains[i].disabled;
        assert(c[i as int] == (fx, fy, disabled));
        if !disabled {
            let d = dist_to(fx, fy, bx, by);
            if closer(best, d, fx, fy) {
                best = Closest { found: true, index: i, x: fx, y: fy, dist: Some(d) };
            } else {
                best = Closest { found: true, ..best };
            }
        }
        i = i + 1;
    }
    best
}


/// The disabled flag an expando gets when checked: set once its cell no longer
/// shows expando water.
pub open spec fn checked_expandos(o: &Options, w: &World) -> Seq<Expando> {
    w.expandos@.map_values(|e: Expando| if !e.disabled && tile_at(o, w, e.x as int, e.y as int) != Tile::ExpandoWater {
        Expando { disabled: true, ..e }
    } else {
        e
    })
}

/// The disabled flag a fountain gets when checked: set once its cell no longer
/// holds a fountain pickup.
pub open spec fn checked_fountains(o: &Options, w: &World) -> Seq<Fountain> {
    w.fountains@.map_values(|f: Fountain| if !f.disabled && w.cell_at(o.seed, f.x as int, f.y as int).pickup != Pickup::Fountain {
        Fountain { disabled: true, ..f }
    } else {
        f
    })
}

/// The edits of draining the first `k` cells of a pool: each cell still holding
/// a water pickup loses it.
pub open spec fn drain_edits(o: &Options, w: &World, tiles: Seq<(i32, i32)>, k: int) -> Seq<(int, int, CellEdit)>
    decreases k,
{
    if k <= 0 || k > tiles.len() {
        Seq::empty()
    } else {
        let prev = drain_edits(o, w, tiles, k - 1);
        let t = tiles[k - 1];
        if crate::world::edited_pickup(o, w, prev, t.0 as int, t.1 as int) == Pickup::Water {
            prev.push((t.0 as int, t.1 as int, CellEdit::Pickup(Pickup::Nothing)))
        } else {
            prev
        }
    }
}

/// What one tick of the windrone does besides changing the windrone itself.
pub struct WindroneTick {
    pub windrone: WindroneModel,
    /// The expandos afterwards.
    pub expandos: Seq<Expando>,
    /// The fountains afterwards, before a new one is added.
    pub fountains: Seq<Fountain>,
    /// The cells written, in order.
    pub edits: Seq<(int, int, CellEdit)>,
    /// A new fountain fed by the pool around this cell is added at the end.
    pub new_fountain: Option<(i32, i32)>,
    /// The windrone took off: the miner's windrone slot is charged.
    pub launched: bool,
}

/// The two searches of a flying windrone: the closest expando, then the
/// closest fountain starting from it.
pub open spec fn wind_targets(m: WindroneModel, o: &Options, w: &World) -> (Closest, Closest) {
    let bx = m.movable.x as int;
    let by = m.movable.y as int;
    let a = scan_closest(expando_candidates(checked_expandos(o, w)), bx, by, no_target(), 0);
    let b = scan_closest(fountain_candidates(checked_fountains(o, w)), bx, by, Closest { found: false, index: 0, ..a }, 0);
    (a, b)
}

/// Flying to the goal: check which expandos and fountains are still there,
/// head for the closest one, and once on it drain the fountain's pool or turn
/// the expando into a new fountain.
pub open spec fn fly_to_goal(m: WindroneModel, o: &Options, w: &World) -> WindroneTick {
    let ex = checked_expandos(o, w);
    let fs = checked_fountains(o, w);
    let (a, b) = wind_targets(m, o, w);
    let bx = m.movable.x;
    let by = m.movable.y;
    let base = WindroneTick { windrone: m, expandos: ex, fountains: fs, edits: Seq::empty(), new_fountain: None, launched: false };
    if !(a.found || b.found) {
        base
    } else if !(bx == b.x && by == b.y) {
        WindroneTick { windrone: wind_moved(m, fly_step(bx as int, by as int, b.x as int, b.y as int)), ..base }
    } else {
        let m1 = wind_state(m, WindroneState::FlyingHome);
        let cell = stuff_at(o, w, b.x as int, b.y as int);
        if cell.1 == Pickup::Fountain {
            let tiles = fs[cell.2 as int].water_tiles@;
            WindroneTick { windrone: m1, edits: drain_edits(o, w, tiles, tiles.len() as int), ..base }
        } else if cell.0 == Tile::ExpandoWater {
            let n = ex.len();
            let ex2 = if n == 0 {
                ex
            } else if a.index == n - 1 {
                ex.drop_last()
            } else {
                ex.drop_last().update(a.index as int, ex.last())
            };
            let (x, y) = (bx as int, by as int);
            let edits = seq![
                (x, y, CellEdit::Pickup(Pickup::Fountain)),
                (x, y, CellEdit::PickupValue(fs.len() as u32)),
                (x, y, CellEdit::Tile(Tile::Empty)),
                (x, y, CellEdit::Value(0u32)),
            ];
            WindroneTick { windrone: m1, expandos: ex2, edits, new_fountain: Some((bx, by)), ..base }
        } else {
            WindroneTick { windrone: m1, ..base }
        }
    }
}

/// One tick of the windrone, by state.
pub open spec fn windrone_tick(m: WindroneModel, miner: Movable, wind: u32, o: &Options, w: &World) -> WindroneTick {
    let base = WindroneTick {
        windrone: m,
        expandos: w.expandos@,
        fountains: w.fountains@,
        edits: Seq::empty(),
        new_fountain: None,
        launched: false,
    };
    match m.state {
        WindroneState::WaitingForWind => if wind >= 10 {
            WindroneTick { windrone: wind_state(m, WindroneState::WaitingForGoal), ..base }
        } else {
            base
        },
        WindroneState::WaitingForGoal => if w.expandos@.len() > 0 {
            WindroneTick {
                windrone: wind_moved(wind_state(m, WindroneState::ReadyForTakeOff), (miner.x as int, miner.y as int)),
                launched: true,
                ..base
            }
        } else {
            base
        },
        WindroneState::FlyingToGoal => fly_to_goal(m, o, w),
        WindroneState::FlyingHome => if m.movable.x == miner.x && m.movable.y == miner.y {
            WindroneTick { windrone: WindroneModel { state: WindroneState::ReturnedHome, status: WINDRONE_IDLE@, ..m }, ..base }
        } else {
            WindroneTick { windrone: wind_moved(m, fly_step(m.movable.x as int, m.movable.y as int, miner.x as int, miner.y as int)), ..base }
        },
        _ => base,
    }
}

/// The inputs on which a tick runs: the targets lie near enough for exact
/// distances, a reached goal is a fountain or expando water, a fountain's pickup
/// names an existing fountain, and every write lands in the stored world.
pub open spec fn windrone_tick_ok(m: WindroneModel, miner: Movable, wind: u32, o: &Options, w: &World) -> bool {
    &&& w.wf()
    &&& m.state == WindroneState::FlyingToGoal ==> {
        let bx = m.movable.x as int;
        let by = m.movable.y as int;
        let (a, b) = wind_targets(m, o, w);
        let cell = stuff_at(o, w, b.x as int, b.y as int);
        &&& candidates_near(expando_candidates(checked_expandos(o, w)), bx, by)
        &&& candidates_near(fountain_candidates(checked_fountains(o, w)), bx, by)
        &&& ((a.found || b.found) && bx == b.x && by == b.y) ==> {
            &&& cell.1 == Pickup::Fountain || cell.0 == Tile::ExpandoWater
            &&& cell.1 == Pickup::Fountain ==> cell.2 < checked_fountains(o, w).len()
        }
        &&& edits_in_bounds(w, fly_to_goal(m, o, w).edits)
    }
}

/// `t` applied to the windrone and the world.
pub open spec fn windrone_tick_applied(t: WindroneTick, w1: &Windrone, old_w: &World, new_w: &World, o: &Options) -> bool {
    &&& w1@ == t.windrone
    &&& cells_edited(old_w, new_w, t.edits)
    &&& new_w.expandos@ == t.expandos
    &&& match t.new_fountain {
        None => new_w.fountains@ == t.fountains,
        Some(p) => {
            &&& new_w.fountains@.len() == t.fountains.len() + 1
            &&& new_w.fountains@.take(t.fountains.len() as int) == t.fountains
            &&& ({
                let f = new_w.fountains@.last();
                &&& f.x == p.0 && f.y == p.1 && f.ticks == 0 && !f.disabled
                &&& is_pool(o, new_w, p, f.water_tiles@)
            })
        },
    }
}


fn check_expandos(world: &mut World, options: &Options)
    requires
        old(world).wf(),
    ensures
        final(world).expandos@ == checked_expandos(options, old(world)),
        final(world).fountains@ == old(world).fountains@,
        final(world).tiles@ == old(world).tiles@,
        final(world).min_x == old(world).min_x && final(world).min_y == old(world).min_y,
        final(world).max_x == old(world).max_x && final(world).max_y == old(world).max_y,
        final(world).wf(),
{
    let ghost w0 = *world;
    let ghost target = checked_expandos(options, &w0);
    let mut i: usize = 0;
    while i < world.expandos.len()
        invariant
            i <= world.expandos@.len(),
            world.expandos@.len() == w0.expandos@.len(),
            target == checked_expandos(options, &w0),
            forall|j: int| 0 <= j < i ==> world.expandos@[j] == target[j],
            forall|j: int| i <= j < world.expandos@.len() ==> world.expandos@[j] == w0.expandos@[j],
            world.fountains@ == w0.fountains@,
            world.tiles@ == w0.tiles@,
            world.min_x == w0.min_x && world.min_y == w0.min_y,
            world.max_x == w0.max_x && world.max_y == w0.max_y,
            w0.wf(),
            world.wf(),
        decreases world.expandos@.len() - i,
    {
        let e = world.expandos[i];
        proof {
            lemma_same_grid_reads(options, world, &w0);
        }
        if !e.disabled && get_cell_tile_at(options, world, e.x, e.y) != Tile::ExpandoWater {
            world.expandos.set(i, Expando { disabled: true, ..e });
        }
        i = i + 1;
    }
    assert(world.expandos@ =~= target);
}

fn check_fountains(world: &mut World, options: &Options)
    requires
        old(world).wf(),
    ensures
        final(world).fountains@ == checked_fountains(options, old(world)),
        final(world).expandos@ == old(world).expandos@,
        final(world).tiles@ == old(world).tiles@,
        final(world).min_x == old(world).min_x && final(world).min_y == old(world).min_y,
        final(world).max_x == old(world).max_x && final(world).max_y == old(world).max_y,
        final(world).wf(),
{
    let ghost w0 = *world;
    let ghost target = checked_fountains(options, &w0);
    let mut i: usize = 0;
    while i < world.fountains.len()
        invariant
            i <= world.fountains@.len(),
            world.fountains@.len() == w0.fountains@.len(),
            target == checked_fountains(options, &w0),
            forall|j: int| 0 <= j < i ==> world.fountains@[j] == target[j],
            forall|j: int| i <= j < world.fountains@.len() ==> world.fountains@[j] == w0.fountains@[j],
            world.expandos@ == w0.expandos@,
            world.tiles@ == w0.tiles@,
            world.min_x == w0.min_x && world.min_y == w0.min_y,
            world.max_x == w0.max_x && world.max_y == w0.max_y,
            w0.wf(),
            world.wf(),
        decreases world.fountains@.len() - i,
    {
        let ghost before = world.fountains@;
        let mut f = world.fountains.remove(i);
        assert(f == w0.fountains@[i as int]);
        if !f.disabled && get_cell_pickup_at(options, world, f.x, f.y) != Pickup::Fountain {
            f.disabled = true;
        }
        world.fountains.insert(i, f);
        assert(world.fountains@ =~= before.update(i as int, target[i as int]));
        i = i + 1;
    }
    assert(world.fountains@ =~= target);
}

proof fn lemma_drain_prefix(o: &Options, w: &World, tiles: Seq<(i32, i32)>, k: int, n: int)
    requires
        0 <= k <= n <= tiles.len(),
    ensures
        drain_edits(o, w, tiles, k).len() <= drain_edits(o, w, tiles, n).len(),
        drain_edits(o, w, tiles, n).subrange(0, drain_edits(o, w, tiles, k).len() as int) == drain_edits(o, w, tiles, k),
    decreases n - k,
{
    if k < n {
        lemma_drain_prefix(o, w, tiles, k, n - 1);
        let a = drain_edits(o, w, tiles, k);
        let b = drain_edits(o, w, tiles, n - 1);
        let c = drain_edits(o, w, tiles, n);
        assert(c.subrange(0, b.len() as int) =~= b);
        assert(c.subrange(0, a.len() as int) =~= b.subrange(0, a.len() as int));
    } else {
        assert(drain_edits(o, w, tiles, n).subrange(0, drain_edits(o, w, tiles, n).len() as int) =~= drain_edits(o, w, tiles, n));
    }
}

fn drain_pool(world: &mut World, options: &Options, tiles: &Vec<(i32, i32)>, Ghost(w0): Ghost<World>)
    requires
        w0.wf(),
        cells_edited(&w0, old(world), Seq::empty()),
        edits_in_bounds(&w0, drain_edits(options, &w0, tiles@, tiles@.len() as int)),
    ensures
        cells_edited(&w0, final(world), drain_edits(options, &w0, tiles@, tiles@.len() as int)),
        final(world).expandos@ == old(world).expandos@,
        final(world).fountains@ == old(world).fountains@,
{
    let ghost w_start = *world;
    let ghost full = drain_edits(options, &w0, tiles@, tiles@.len() as int);
    assert(drain_edits(options, &w0, tiles@, 0) =~= Seq::<(int, int, CellEdit)>::empty());
    let mut i: usize = 0;
    while i < tiles.len()
        invariant
            i <= tiles@.len(),
            w0.wf(),
            full == drain_edits(options, &w0, tiles@, tiles@.len() as int),
            edits_in_bounds(&w0, full),
            cells_edited(&w0, world, drain_edits(options, &w0, tiles@, i as int)),
            world.expandos@ == w_start.expandos@,
            world.fountains@ == w_start.fountains@,
        decreases tiles@.len() - i,
    {
        let (wx, wy) = tiles[i];
        let ghost prev = drain_edits(options, &w0, tiles@, i as int);
        proof {
            crate::world::lemma_edited_pickup(options, &w0, world, prev, wx as int, wy as int);
        }
        if get_cell_stuff_at(options, world, wx, wy).1 == Pickup::Water {
            proof {
                lemma_drain_prefix(options, &w0, tiles@, i + 1, tiles@.len() as int);
                let next = drain_edits(options, &w0, tiles@, i + 1);
                assert(next == prev.push((wx as int, wy as int, CellEdit::Pickup(Pickup::Nothing))));
                assert(full[prev.len() as int] == next[prev.len() as int]);
                assert(w0.in_bounds(full[prev.len() as int].0, full[prev.len() as int].1));
            }
            let ghost w1 = *world;
            set_cell_pickup_at(options, world, wx, wy, Pickup::Nothing);
            proof {
                lemma_cells_edited_step(&w0, &w1, world, prev, wx as int, wy as int, CellEdit::Pickup(Pickup::Nothing));
            }
        }
        i = i + 1;
    }
}

fn copy_tiles(tiles: &Vec<(i32, i32)>) -> (r: Vec<(i32, i32)>)
    ensures
        r@ == tiles@,
{
    let mut r: Vec<(i32, i32)> = Vec::new();
    let mut i: usize = 0;
    while i < tiles.len()
        invariant
            i <= tiles@.len(),
            r@ == tiles@.take(i as int),
        decreases tiles@.len() - i,
    {
        r.push(tiles[i]);
        assert(r@ =~= tiles@.take(i + 1));
        i = i + 1;
    }
    assert(tiles@.take(tiles@.len() as int) =~= tiles@);
    r
}


fn plant_fountain(world: &mut World, options: &Options, x: i32, y: i32, index: u32, Ghost(w0): Ghost<World>)
    requires
        w0.wf(),
        cells_edited(&w0, old(world), Seq::empty()),
        w0.in_bounds(x as int, y as int),
    ensures
        cells_edited(&w0, final(world), seq![
            (x as int, y as int, CellEdit::Pickup(Pickup::Fountain)),
            (x as int, y as int, CellEdit::PickupValue(index)),
            (x as int, y as int, CellEdit::Tile(Tile::Empty)),
            (x as int, y as int, CellEdit::Value(0u32)),
        ]),
        final(world).expandos@ == old(world).expandos@,
        final(world).fountains@ == old(world).fountains@,
{
    let ghost e0: Seq<(int, int, CellEdit)> = Seq::empty();
    let ghost e1 = e0.push((x as int, y as int, CellEdit::Pickup(Pickup::Fountain)));
    let ghost e2 = e1.push((x as int, y as int, CellEdit::PickupValue(index)));
    let ghost e3 = e2.push((x as int, y as int, CellEdit::Tile(Tile::Empty)));
    let ghost e4 = e3.push((x as int, y as int, CellEdit::Value(0u32)));
    let ghost a = *world;
    set_cell_pickup_at(options, world, x, y, Pickup::Fountain);
    proof { lemma_cells_edited_step(&w0, &a, world, e0, x as int, y as int, CellEdit::Pickup(Pickup::Fountain)); }
    let ghost b = *world;
    set_cell_pickup_value_at(options, world, x, y, index);
    proof { lemma_cells_edited_step(&w0, &b, world, e1, x as int, y as int, CellEdit::PickupValue(index)); }
    let ghost c = *world;
    set_cell_tile_at(options, world, x, y, Tile::Empty);
    proof { lemma_cells_edited_step(&w0, &c, world, e2, x as int, y as int, CellEdit::Tile(Tile::Empty)); }
    let ghost d = *world;
    set_cell_tile_value_at(options, world, x, y, 0);
    proof {
        lemma_cells_edited_step(&w0, &d, world, e3, x as int, y as int, CellEdit::Value(0u32));
        assert(e4 =~= seq![
            (x as int, y as int, CellEdit::Pickup(Pickup::Fountain)),
            (x as int, y as int, CellEdit::PickupValue(index)),
            (x as int, y as int, CellEdit::Tile(Tile::Empty)),
            (x as int, y as int, CellEdit::Value(0u32)),
        ]);
    }
}

#[verifier::rlimit(40)]
fn wind_fly_to_goal(windrone: &mut Windrone, world: &mut World, options: &Options)
    requires
        old(world).wf(),
        old(windrone).state == WindroneState::FlyingToGoal,
        windrone_tick_ok(old(windrone)@, old(windrone).movable, 0, options, old(world)),
    ensures
        windrone_tick_applied(fly_to_goal(old(windrone)@, options, old(world)), final(windrone), old(world), final(world), options),
{
    let ghost w0 = *world;
    let ghost m0 = windrone@;
    let ghost t = fly_to_goal(m0, options, &w0);
    check_expandos(world, options);
    let ghost w_mid = *world;
    proof {
        lemma_same_grid_reads(options, &w_mid, &w0);
        assert(checked_fountains(options, &w_mid) =~= checked_fountains(options, &w0)) by {
            assert forall|i: int| 0 <= i < w0.fountains@.len() implies #[trigger] w_mid.cell_at(options.seed, w0.fountains@[i].x as int, w0.fountains@[i].y as int)
                == w0.cell_at(options.seed, w0.fountains@[i].x as int, w0.fountains@[i].y as int) by {
                assert(w_mid.stored(w0.fountains@[i].x as int, w0.fountains@[i].y as int) == w0.stored(w0.fountains@[i].x as int, w0.fountains@[i].y as int));
            }
        }
    }
    check_fountains(world, options);
    proof {
        lemma_same_grid_reads(options, world, &w0);
        assert(cells_edited(&w0, world, Seq::empty()));
    }
    let bx = windrone.movable.x;
    let by = windrone.movable.y;
    let a = find_closest_expando(&world.expandos, bx, by);
    let b = find_closest_fountain(&world.fountains, bx, by, a);
    assert((a, b) == wind_targets(m0, options, &w0));
    if (a.found || b.found) && move_windrone_towards(windrone, b.x, b.y) {
        set_windrone_state(windrone, WindroneState::FlyingHome);
        let cell = get_cell_stuff_at(options, world, b.x, b.y);
        assert(cell == stuff_at(options, &w0, b.x as int, b.y as int));
        if cell.1 == Pickup::Fountain {
            let idx = cell.2 as usize;
            let tiles = copy_tiles(&world.fountains[idx].water_tiles);
            drain_pool(world, options, &tiles, Ghost(w0));
        } else if cell.0 == Tile::ExpandoWater {
            let ghost ex = world.expandos@;
            let last = world.expandos.pop();
            if a.index != world.expandos.len() {
                match last {
                    Some(e) => {
                        world.expandos.set(a.index, e);
                    },
                    None => {},
                }
            }
            assert(world.expandos@ =~= t.expandos);
            let new_fountain_index = world.fountains.len();
            proof {
                assert(w0.in_bounds(t.edits[0].0, t.edits[0].1));
            }
            plant_fountain(world, options, bx, by, new_fountain_index as u32, Ghost(w0));
            let ghost before_push = *world;
            let fountain = create_fountain(bx, by, world, options);
            world.fountains.push(fountain);
            proof {
                lemma_same_grid_reads(options, world, &before_push);
                crate::fountain::lemma_pool_same_grid(options, &before_push, world, (bx, by), world.fountains@.last().water_tiles@);
                assert(world.fountains@.take(t.fountains.len() as int) =~= t.fountains);
            }
        }
    }
}


/// One tick of the windrone (see `windrone_tick`). `wind` is the miner's wind
/// count; the result says whether the windrone took off, which charges the
/// miner's windrone slot.
pub fn tick_windrone(windrone: &mut Windrone, miner: &Movable, wind: u32, world: &mut World, options: &Options) -> (launched: bool)
    requires
        windrone_tick_ok(old(windrone)@, *miner, wind, options, old(world)),
    ensures
        windrone_tick_applied(windrone_tick(old(windrone)@, *miner, wind, options, old(world)), final(windrone), old(world), final(world), options),
        launched == windrone_tick(old(windrone)@, *miner, wind, options, old(world)).launched,
{
    let ghost w0 = *world;
    proof {
        lemma_same_grid_reads(options, world, &w0);
    }
    match windrone.state {
        WindroneState::WaitingForWind => {
            if wind >= 10 {
                set_windrone_state(windrone, WindroneState::WaitingForGoal);
            }
            false
        },
        WindroneState::WaitingForGoal => {
            if world.expandos.len() > 0 {
                set_windrone_state(windrone, WindroneState::ReadyForTakeOff);
                windrone.movable.x = miner.x;
                windrone.movable.y = miner.y;
                return true;
            }
            false
        },
        WindroneState::FlyingToGoal => {
            wind_fly_to_goal(windrone, world, options);
            false
        },
        WindroneState::FlyingHome => {
            if move_windrone_towards(windrone, miner.x, miner.y) {
                windrone.state = WindroneState::ReturnedHome;
                windrone.status_desc = String::from_str(WINDRONE_IDLE);
            }
            false
        },
        _ => false,
    }
}

} // verus!
