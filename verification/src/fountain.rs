//! Fountains: former expandos that keep refilling their pool with water pickups.

use vstd::prelude::*;
use crate::tile::Tile;
use crate::pickup::Pickup;
use crate::options::Options;
use crate::world::{World, tile_at, stuff_at, get_cell_tile_at, get_cell_stuff_at, set_cell_pickup_at, CellEdit, cells_edited, lemma_cells_edited_step, lemma_same_grid_reads};


verus! {

/// A fountain and the water cells connected to it.
#[derive(Debug)]
pub struct Fountain {
    pub x: i32,
    pub y: i32,
    /// The connected water cells, each once.
    pub water_tiles: Vec<(i32, i32)>,
    pub ticks: u32,
    pub disabled: bool,
}

/// The cell is part of a pool: expando water, or the fountain itself.
pub open spec fn holds_water(o: &Options, w: &World, x: int, y: int) -> bool {
    tile_at(o, w, x, y) == Tile::ExpandoWater || stuff_at(o, w, x, y).1 == Pickup::Fountain
}

/// `p` and `q` are horizontal or vertical neighbours.
pub open spec fn adjacent(p: (i32, i32), q: (i32, i32)) -> bool {
    (p.0 == q.0 && (p.1 - q.1 == 1 || q.1 - p.1 == 1)) || (p.1 == q.1 && (p.0 - q.0 == 1 || q.0
        - p.0 == 1))
}

/// `cells` is the pool around `start`: the stored cells holding water that are
/// connected to `start` through neighbours holding water, each listed once,
/// starting with `start`; empty when `start` holds no water.
pub open spec fn is_pool(o: &Options, w: &World, start: (i32, i32), cells: Seq<(i32, i32)>) -> bool {
    &&& cells.no_duplicates()
    &&& (holds_water(o, w, start.0 as int, start.1 as int) ==> cells.len() > 0 && cells[0] == start)
    &&& (!holds_water(o, w, start.0 as int, start.1 as int) ==> cells.len() == 0)
    &&& forall|i: int| 0 <= i < cells.len() ==> w.in_bounds(#[trigger] cells[i].0 as int, cells[i].1 as int)
        && holds_water(o, w, cells[i].0 as int, cells[i].1 as int)
    &&& forall|i: int, q: (i32, i32)|
        0 <= i < cells.len() && #[trigger] adjacent(cells[i], q) && w.in_bounds(q.0 as int, q.1 as int)
            && holds_water(o, w, q.0 as int, q.1 as int) ==> cells.contains(q)
    &&& forall|i: int| 0 < i < cells.len() ==> exists|j: int| 0 <= j < i && adjacent(cells[j], #[trigger] cells[i])
}

pub(crate) fn vec_contains(v: &Vec<(i32, i32)>, p: (i32, i32)) -> (r: bool)
    ensures
        r == v@.contains(p),
{
    let mut i: usize = 0;
    while i < v.len()
        invariant
            i <= v@.len(),
            forall|j: int| 0 <= j < i ==> v@[j] != p,
        decreases v@.len() - i,
    {
        let c = v[i];
        if c.0 == p.0 && c.1 == p.1 {
            assert(v@[i as int] == p);
            return true;
        }
        i = i + 1;
    }
    false
}

fn water_at(options: &Options, world: &World, x: i32, y: i32) -> (r: bool)
    requires
        world.wf(),
    ensures
        r == holds_water(options, world, x as int, y as int),
{
    get_cell_tile_at(options, world, x, y) == Tile::ExpandoWater || get_cell_stuff_at(options, world, x, y).1 == Pickup::Fountain
}

/// The pool invariant while the cells before `done` have had their neighbours looked at.
#[verifier::opaque]
pub open spec fn pool_progress(o: &Options, w: &World, start: (i32, i32), cells: Seq<(i32, i32)>, done: int) -> bool {
    &&& cells.no_duplicates()
    &&& cells.len() > 0
    &&& cells[0] == start
    &&& 0 <= done <= cells.len()
    &&& forall|i: int| 0 <= i < cells.len() ==> w.in_bounds(#[trigger] cells[i].0 as int, cells[i].1 as int)
        && holds_water(o, w, cells[i].0 as int, cells[i].1 as int)
    &&& forall|i: int, q: (i32, i32)|
        0 <= i < done && #[trigger] adjacent(cells[i], q) && w.in_bounds(q.0 as int, q.1 as int)
            && holds_water(o, w, q.0 as int, q.1 as int) ==> cells.contains(q)
    &&& forall|i: int| 0 < i < cells.len() ==> exists|j: int| 0 <= j < i && adjacent(cells[j], #[trigger] cells[i])
}


proof fn lemma_progress_facts(o: &Options, w: &World, start: (i32, i32), cells: Seq<(i32, i32)>, done: int)
    requires
        pool_progress(o, w, start, cells, done),
    ensures
        cells.no_duplicates(),
        cells.len() > 0,
        0 <= done <= cells.len(),
        forall|i: int| 0 <= i < cells.len() ==> w.in_bounds(#[trigger] cells[i].0 as int, cells[i].1 as int),
{
    reveal(pool_progress);
}

proof fn lemma_progress_start(o: &Options, w: &World, start: (i32, i32), cells: Seq<(i32, i32)>)
    requires
        cells == seq![start],
        w.in_bounds(start.0 as int, start.1 as int),
        holds_water(o, w, start.0 as int, start.1 as int),
    ensures
        pool_progress(o, w, start, cells, 0),
{
    reveal(pool_progress);
}

proof fn lemma_progress_step(o: &Options, w: &World, start: (i32, i32), cells: Seq<(i32, i32)>, done: int)
    requires
        pool_progress(o, w, start, cells, done),
        done < cells.len(),
        forall|q: (i32, i32)| adjacent(cells[done], q) && w.in_bounds(q.0 as int, q.1 as int)
            && holds_water(o, w, q.0 as int, q.1 as int) ==> #[trigger] cells.contains(q),
    ensures
        pool_progress(o, w, start, cells, done + 1),
{
    reveal(pool_progress);
}

proof fn lemma_progress_done(o: &Options, w: &World, start: (i32, i32), cells: Seq<(i32, i32)>)
    requires
        pool_progress(o, w, start, cells, cells.len() as int),
    ensures
        is_pool(o, w, start, cells),
{
    reveal(pool_progress);
}

/// Add the neighbour `q` of `cells[from]` when it is stored, holds water and is new.
fn add_neighbour(set: &mut Vec<(i32, i32)>, q: (i32, i32), from: usize, world: &World, options: &Options, Ghost(start): Ghost<(i32, i32)>, Ghost(done): Ghost<int>)
    requires
        world.wf(),
        pool_progress(options, world, start, old(set)@, done),
        from < old(set)@.len(),
        adjacent(old(set)@[from as int], q),
    ensures
        pool_progress(options, world, start, final(set)@, done),
        final(set)@.len() >= old(set)@.len(),
        final(set)@.subrange(0, old(set)@.len() as int) == old(set)@,
        forall|t: (i32, i32)| old(set)@.contains(t) ==> final(set)@.contains(t),
        world.in_bounds(q.0 as int, q.1 as int) && holds_water(options, world, q.0 as int, q.1 as int) ==> final(set)@.contains(q),
{
    reveal(pool_progress);
    if q.0 >= world.min_x && q.0 <= world.max_x && q.1 >= world.min_y && q.1 <= world.max_y {
        if water_at(options, world, q.0, q.1) && !vec_contains(set, q) {
            let ghost before = set@;
            set.push(q);
            proof {
                assert(set@.subrange(0, before.len() as int) =~= before);
                assert forall|t: (i32, i32)| before.contains(t) implies set@.contains(t) by {
                    let k = choose|k: int| 0 <= k < before.len() && before[k] == t;
                    assert(set@[k] == before[k]);
                }
                assert(set@[set@.len() - 1] == q);
                assert forall|i: int| 0 < i < set@.len() implies exists|j: int| 0 <= j < i && adjacent(set@[j], #[trigger] set@[i]) by {
                    if i < before.len() {
                        let j0 = choose|j: int| 0 <= j < i && adjacent(before[j], #[trigger] before[i]);
                        assert(set@[j0] == before[j0] && set@[i] == before[i]);
                    } else {
                        assert(set@[from as int] == before[from as int]);
                    }
                }
                assert forall|i: int, r: (i32, i32)|
                    0 <= i < done && #[trigger] adjacent(set@[i], r) && world.in_bounds(r.0 as int, r.1 as int)
                        && holds_water(options, world, r.0 as int, r.1 as int) implies set@.contains(r) by {
                    assert(set@[i] == before[i]);
                    assert(adjacent(before[i], r));
                    assert(before.contains(r));
                }
            }
        }
    }
}

/// Collect into `set` the pool around `(x, y)` (see `is_pool`).
pub fn collect_connected_water_coords(x: i32, y: i32, world: &World, options: &Options, set: &mut Vec<(i32, i32)>)
    requires
        world.wf(),
        old(set)@.len() == 0,
    ensures
        is_pool(options, world, (x, y), final(set)@),
{
    if !water_at(options, world, x, y) {
        return;
    }
    proof {
        if !world.in_bounds(x as int, y as int) {
            crate::laws::law_generated_cells(options.seed, x as int, y as int);
        }
    }
    set.push((x, y));
    let mut i: usize = 0;
    proof {
        assert(set@ =~= seq![(x, y)]);
        lemma_progress_start(options, world, (x, y), set@);
        lemma_progress_facts(options, world, (x, y), set@, 0);
        crate::world::lemma_distinct_cells_fit(world, set@);
    }
    while i < set.len()
        invariant
            world.wf(),
            pool_progress(options, world, (x, y), set@, i as int),
            set@.len() <= world.area(),
        decreases world.area() - i,
    {
        proof {
            lemma_progress_facts(options, world, (x, y), set@, i as int);
        }
        let (px, py) = set[i];
        let ghost p = set@[i as int];
        assert(world.in_bounds(px as int, py as int));
        let ghost s0 = set@;
        add_neighbour(set, ((px - 1) as i32, py), i, world, options, Ghost((x, y)), Ghost(i as int));
        let ghost s1 = set@;
        add_neighbour(set, ((px + 1) as i32, py), i, world, options, Ghost((x, y)), Ghost(i as int));
        let ghost s2 = set@;
        add_neighbour(set, (px, (py - 1) as i32), i, world, options, Ghost((x, y)), Ghost(i as int));
        let ghost s3 = set@;
        add_neighbour(set, (px, (py + 1) as i32), i, world, options, Ghost((x, y)), Ghost(i as int));
        proof {
            assert(set@[i as int] == p) by {
                assert(s1[i as int] == s0[i as int]);
                assert(s2[i as int] == s1[i as int]);
                assert(s3[i as int] == s2[i as int]);
                assert(set@[i as int] == s3[i as int]);
            }
            assert forall|q: (i32, i32)| adjacent(set@[i as int], q) && world.in_bounds(q.0 as int, q.1 as int)
                && holds_water(options, world, q.0 as int, q.1 as int) implies #[trigger] set@.contains(q) by {
                assert(q == ((px - 1) as i32, py) || q == ((px + 1) as i32, py) || q == (px, (py - 1) as i32) || q == (px, (py + 1) as i32));
            }
            lemma_progress_step(options, world, (x, y), set@, i as int);
            lemma_progress_facts(options, world, (x, y), set@, i + 1);
            crate::world::lemma_distinct_cells_fit(world, set@);
        }
        i = i + 1;
    }
    proof {
        lemma_progress_facts(options, world, (x, y), set@, i as int);
        lemma_progress_done(options, world, (x, y), set@);
    }
}


/// A pool stays a pool in a world with the same rectangle and grid.
pub proof fn lemma_pool_same_grid(o: &Options, a: &World, b: &World, start: (i32, i32), cells: Seq<(i32, i32)>)
    requires
        a.tiles@ == b.tiles@,
        a.min_x == b.min_x && a.min_y == b.min_y && a.max_x == b.max_x && a.max_y == b.max_y,
        is_pool(o, a, start, cells),
    ensures
        is_pool(o, b, start, cells),
{
    lemma_same_grid_reads(o, a, b);
    assert forall|i: int, q: (i32, i32)|
        0 <= i < cells.len() && #[trigger] adjacent(cells[i], q) && b.in_bounds(q.0 as int, q.1 as int)
            && holds_water(o, b, q.0 as int, q.1 as int) implies cells.contains(q) by {
        assert(holds_water(o, a, q.0 as int, q.1 as int));
    }
    assert forall|i: int| 0 <= i < cells.len() implies b.in_bounds(#[trigger] cells[i].0 as int, cells[i].1 as int)
        && holds_water(o, b, cells[i].0 as int, cells[i].1 as int) by {
        assert(holds_water(o, a, cells[i].0 as int, cells[i].1 as int));
    }
}

/// A fountain at `(x, y)` fed by the pool around it.
pub fn create_fountain(x: i32, y: i32, world: &World, options: &Options) -> (r: Fountain)
    requires
        world.wf(),
    ensures
        r.x == x && r.y == y && r.ticks == 0 && !r.disabled,
        is_pool(options, world, (x, y), r.water_tiles@),
{
    let mut set: Vec<(i32, i32)> = Vec::new();
    collect_connected_water_coords(x, y, world, options, &mut set);
    Fountain { x, y, water_tiles: set, ticks: 0, disabled: false }
}


/// The first water cell from index `k` on whose pickup reads as nothing.
pub open spec fn first_dry(o: &Options, w: &World, tiles: Seq<(i32, i32)>, k: int) -> Option<int>
    decreases tiles.len() - k,
{
    if k >= tiles.len() || k < 0 {
        None
    } else if stuff_at(o, w, tiles[k].0 as int, tiles[k].1 as int).1 == Pickup::Nothing {
        Some(k)
    } else {
        first_dry(o, w, tiles, k + 1)
    }
}

/// Whether the fountain refills a cell this tick: it is active, still a
/// fountain, and its tick count passes 100.
pub open spec fn fountain_fires(o: &Options, w: &World, f: Fountain) -> bool {
    !f.disabled && stuff_at(o, w, f.x as int, f.y as int).1 == Pickup::Fountain && f.ticks + 1 > 100
}

/// The fountain after a tick: disabled once its cell is no longer a fountain,
/// otherwise one tick older, wrapping to zero after 100.
pub open spec fn fountain_after_tick(o: &Options, w: &World, f: Fountain) -> Fountain {
    if f.disabled {
        f
    } else if stuff_at(o, w, f.x as int, f.y as int).1 != Pickup::Fountain {
        Fountain { disabled: true, ..f }
    } else if f.ticks + 1 > 100 {
        Fountain { ticks: 0, ..f }
    } else {
        Fountain { ticks: (f.ticks + 1) as u32, ..f }
    }
}

/// The cell a firing fountain fills with a water pickup: its first dry water cell.
pub open spec fn fountain_edits(o: &Options, w: &World, f: Fountain) -> Seq<(int, int, CellEdit)> {
    if fountain_fires(o, w, f) {
        match first_dry(o, w, f.water_tiles@, 0) {
            Some(k) => seq![(f.water_tiles@[k].0 as int, f.water_tiles@[k].1 as int, CellEdit::Pickup(Pickup::Water))],
            None => Seq::empty(),
        }
    } else {
        Seq::empty()
    }
}

proof fn lemma_first_dry_same(o: &Options, a: &World, b: &World, tiles: Seq<(i32, i32)>, k: int)
    requires
        forall|x: int, y: int| #[trigger] stuff_at(o, a, x, y) == stuff_at(o, b, x, y),
    ensures
        first_dry(o, a, tiles, k) == first_dry(o, b, tiles, k),
    decreases tiles.len() - k,
{
    if 0 <= k < tiles.len() {
        lemma_first_dry_same(o, a, b, tiles, k + 1);
    }
}

fn find_dry(water_tiles: &Vec<(i32, i32)>, world: &World, options: &Options) -> (r: Option<usize>)
    requires
        world.wf(),
    ensures
        (match r { Some(k) => Some(k as int), None => None::<int> }) == first_dry(options, world, water_tiles@, 0),
        r is Some ==> r->0 < water_tiles@.len(),
{
    let mut k: usize = 0;
    while k < water_tiles.len()
        invariant
            world.wf(),
            k <= water_tiles@.len(),
            first_dry(options, world, water_tiles@, 0) == first_dry(options, world, water_tiles@, k as int),
        decreases water_tiles@.len() - k,
    {
        let (wx, wy) = water_tiles[k];
        if get_cell_stuff_at(options, world, wx, wy).1 == Pickup::Nothing {
            return Some(k);
        }
        k = k + 1;
    }
    None
}

/// The fountain at `i` can tick: it exists, its tick counter has room, and the
/// cell it would water is stored.
pub open spec fn fountain_tickable(o: &Options, w: &World, i: int) -> bool {
    &&& w.wf()
    &&& 0 <= i < w.fountains@.len()
    &&& w.fountains@[i].ticks < u32::MAX
    &&& fountain_edits(o, w, w.fountains@[i]).len() > 0
        ==> w.in_bounds(fountain_edits(o, w, w.fountains@[i])[0].0, fountain_edits(o, w, w.fountains@[i])[0].1)
}

/// The world after one tick of the fountain at `i` (see `fountain_edits` and
/// `fountain_after_tick`).
pub open spec fn fountain_ticked(o: &Options, w: &World, w2: &World, i: int) -> bool {
    &&& cells_edited(w, w2, fountain_edits(o, w, w.fountains@[i]))
    &&& w2.expandos@ == w.expandos@
    &&& w2.fountains@ == w.fountains@.update(i, fountain_after_tick(o, w, w.fountains@[i]))
}

/// Whether the fountain at `i` can tick (see `fountain_tickable`).
pub fn fountain_tickable_exec(options: &Options, world: &World, i: usize) -> (r: bool)
    requires
        world.wf(),
        i < world.fountains@.len(),
    ensures
        r == fountain_tickable(options, world, i as int),
{
    let f = &world.fountains[i];
    if f.ticks == u32::MAX {
        return false;
    }
    let p = get_cell_stuff_at(options, world, f.x, f.y).1;
    if f.disabled || p != Pickup::Fountain || f.ticks + 1 <= 100 {
        return true;
    }
    match find_dry(&f.water_tiles, world, options) {
        Some(k) => {
            let (x, y) = f.water_tiles[k];
            world.min_x <= x && x <= world.max_x && world.min_y <= y && y <= world.max_y
        },
        None => true,
    }
}

/// One tick of the fountain at `fountain_index`: stop for good once its cell is no
/// longer a fountain; every hundred and first tick, put a water pickup on the
/// first dry cell of its pool.
pub fn tick_fountain(fountain_index: usize, world: &mut World, options: &Options)
    requires
        fountain_tickable(options, old(world), fountain_index as int),
    ensures
        fountain_ticked(options, old(world), final(world), fountain_index as int),
{
    let ghost w0 = *world;
    let ghost f0 = world.fountains@[fountain_index as int];
    let mut f = world.fountains.remove(fountain_index);
    proof {
        lemma_same_grid_reads(options, &w0, world);
    }
    assert(cells_edited(&w0, world, Seq::empty()));
    if f.disabled {
        let ghost w_last = *world;
        world.fountains.insert(fountain_index, f);
        proof {
            lemma_same_grid_reads(options, world, &w_last);
        }
        assert(world.fountains@ =~= w0.fountains@.update(fountain_index as int, f0));
        return;
    }
    if get_cell_stuff_at(options, world, f.x, f.y).1 != Pickup::Fountain {
        f.disabled = true;
        let ghost w_last = *world;
        world.fountains.insert(fountain_index, f);
        proof {
            lemma_same_grid_reads(options, world, &w_last);
        }
        assert(world.fountains@ =~= w0.fountains@.update(fountain_index as int, fountain_after_tick(options, &w0, f0)));
        return;
    }
    f.ticks = f.ticks + 1;
    if f.ticks > 100 {
        f.ticks = 0;
        let k = find_dry(&f.water_tiles, world, options);
        proof {
            lemma_first_dry_same(options, &w0, world, f.water_tiles@, 0);
        }
        match k {
            Some(k) => {
                let (wx, wy) = f.water_tiles[k];
                let ghost w1 = *world;
                set_cell_pickup_at(options, world, wx, wy, Pickup::Water);
                proof {
                    lemma_cells_edited_step(&w0, &w1, world, Seq::empty(), wx as int, wy as int, CellEdit::Pickup(Pickup::Water));
                    assert(Seq::<(int, int, CellEdit)>::empty().push((wx as int, wy as int, CellEdit::Pickup(Pickup::Water)))
                        =~= fountain_edits(options, &w0, f0));
                }
            },
            None => {},
        }
    }
    let ghost w_last = *world;
    world.fountains.insert(fountain_index, f);
    proof {
        lemma_same_grid_reads(options, world, &w_last);
    }
    assert(world.fountains@ =~= w0.fountains@.update(fountain_index as int, fountain_after_tick(options, &w0, f0)));
}

} // verus!
