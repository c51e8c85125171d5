//! Expandos: sources of fluid that spill over neighbouring empty cells.

use vstd::prelude::*;
use crate::tile::Tile;
use crate::cell::Cell;
use crate::options::Options;
use crate::world::{World, spec_generate_cell, tile_at, same_cells, span_fits, get_cell_tile_at, ensure_cell_in_world, set_cell_tile_at};

verus! {

/// The kind of fluid an expando spills.
#[derive(Debug, Clone, Copy, PartialEq, Eq, Structural)]
pub enum ExpandoKind {
    Water,
    Gas,
    Toxic,
    Oil,
    Lava,
}

/// A source of fluid that still has the capacity to expand.
#[derive(Debug, Clone, Copy, PartialEq, Eq, Structural)]
pub struct Expando {
    pub kind: ExpandoKind,
    pub x: i32,
    pub y: i32,
    /// How many more cells this expando can flood.
    pub volume: u32,
    /// Expansion rate in world ticks.
    pub speed: u32,
    pub ticks_since_last_update: u32,
    /// Set once the expando's origin is no longer water.
    pub disabled: bool,
}

/// A fresh water expando at `(x, y)`.
pub fn create_expando(x: i32, y: i32) -> (r: Expando)
    ensures
        r == (Expando {
            kind: ExpandoKind::Water,
            x,
            y,
            volume: 9,
            speed: 100,
            ticks_since_last_update: 0,
            disabled: false,
        }),
{
    Expando {
        kind: ExpandoKind::Water,
        x,
        y,
        volume: 9,
        speed: 100,
        ticks_since_last_update: 0,
        disabled: false,
    }
}


/// A rectangle `(min_x, min_y, max_x, max_y)` of stored cells.
pub type Rect = (int, int, int, int);

/// The stored rectangle of a world.
pub open spec fn rect_of(w: &World) -> Rect {
    (w.min_x as int, w.min_y as int, w.max_x as int, w.max_y as int)
}

/// Whether `(x, y)` lies in `r`.
pub open spec fn in_rect(r: Rect, x: int, y: int) -> bool {
    r.0 <= x <= r.2 && r.1 <= y <= r.3
}

/// `r` grown to contain `(x, y)`.
pub open spec fn grow_rect(r: Rect, x: int, y: int) -> Rect {
    (
        if x < r.0 { x } else { r.0 },
        if y < r.1 { y } else { r.1 },
        if x > r.2 { x } else { r.2 },
        if y > r.3 { y } else { r.3 },
    )
}

/// The tile reported at `(x, y)` by a world that stores the rectangle `r` and
/// shows the cells of `w`.
pub open spec fn tile_seen(o: &Options, w: &World, r: Rect, x: int, y: int) -> Tile {
    if !in_rect(r, x, y) {
        if o.hide_world_oob {
            Tile::HideWorld
        } else {
            spec_generate_cell(o.seed, x, y).tile
        }
    } else if o.hide_world_ib {
        Tile::HideWorld
    } else {
        w.cell_at(o.seed, x, y).tile
    }
}

/// The spill search from `(x, y)`: stop once more than `volume` cells were
/// found; an empty cell is added; an expando water cell is added, the world is
/// grown around it, and the search goes on left, right, up and down. `budget`
/// bounds the depth and never runs out before the volume does.
pub open spec fn spill(o: &Options, w: &World, volume: u32, x: int, y: int, r: Rect, set: Seq<(i32, i32)>, budget: nat) -> (Rect, Seq<(i32, i32)>)
    decreases budget,
{
    if set.len() > volume || budget == 0 {
        (r, set)
    } else {
        let t = tile_seen(o, w, r, x, y);
        if t == Tile::Empty {
            if set.contains((x as i32, y as i32)) {
                (r, set)
            } else {
                (r, set.push((x as i32, y as i32)))
            }
        } else if t == Tile::ExpandoWater {
            if set.contains((x as i32, y as i32)) {
                (r, set)
            } else {
                let s1 = set.push((x as i32, y as i32));
                let r1 = grow_rect(grow_rect(r, x - 1, y - 1), x + 1, y + 1);
                let a = spill(o, w, volume, x - 1, y, r1, s1, (budget - 1) as nat);
                let b = spill(o, w, volume, x + 1, y, a.0, a.1, (budget - 1) as nat);
                let c = spill(o, w, volume, x, y - 1, b.0, b.1, (budget - 1) as nat);
                spill(o, w, volume, x, y + 1, c.0, c.1, (budget - 1) as nat)
            }
        } else {
            (r, set)
        }
    }
}

/// The room the spill of an expando at `(x, y)` with `volume` may grow the
/// world into: `volume + 2` cells beyond the stored rectangle on every side,
/// which must still fit the 32-bit coordinates.
pub open spec fn spill_room(w: &World, volume: u32) -> Rect {
    (w.min_x - volume - 2, w.min_y - volume - 2, w.max_x + volume + 2, w.max_y + volume + 2)
}

/// The world `w` can be grown into its spill room.
pub open spec fn has_spill_room(w: &World, volume: u32) -> bool {
    let room = spill_room(w, volume);
    span_fits(room.0, room.2) && span_fits(room.1, room.3)
}

/// Whether the world has room to grow into its spill room (see `has_spill_room`).
pub fn spill_room_exec(world: &World, volume: u32) -> (r: bool)
    ensures
        r == has_spill_room(world, volume),
{
    let lo_x: i64 = world.min_x as i64 - volume as i64 - 2;
    let hi_x: i64 = world.max_x as i64 + volume as i64 + 2;
    let lo_y: i64 = world.min_y as i64 - volume as i64 - 2;
    let hi_y: i64 = world.max_y as i64 + volume as i64 + 2;
    (i32::MIN as i64) < lo_x && hi_x - lo_x + 1 <= i32::MAX as i64
        && (i32::MIN as i64) < lo_y && hi_y - lo_y + 1 <= i32::MAX as i64
}

/// The absolute difference.
pub open spec fn dist1(a: int, b: int) -> int {
    if a < b { b - a } else { a - b }
}

/// The world `w` shows the cells of `w0` inside the spill room of `w0`.
pub open spec fn spill_state(o: &Options, w0: &World, w: &World, volume: u32, start: (i32, i32), set: Seq<(i32, i32)>) -> bool {
    let room = spill_room(w0, volume);
    &&& w.wf()
    &&& w0.wf()
    &&& same_cells(o.seed, w0, w)
    &&& w.expandos@ == w0.expandos@
    &&& w.fountains@ == w0.fountains@
    &&& has_spill_room(w0, volume)
    &&& room.0 <= w.min_x && w.max_x <= room.2 && room.1 <= w.min_y && w.max_y <= room.3
    &&& w0.in_bounds(start.0 as int, start.1 as int)
    &&& set.len() <= volume + 1
    &&& forall|i: int| 0 <= i < set.len() ==> w.in_bounds(#[trigger] set[i].0 as int, set[i].1 as int)
    &&& set.no_duplicates()
}

proof fn lemma_tile_seen(o: &Options, w0: &World, w: &World, x: int, y: int)
    requires
        same_cells(o.seed, w0, w),
        w.wf(),
    ensures
        tile_at(o, w, x, y) == tile_seen(o, w0, rect_of(w), x, y),
{
    assert(w.cell_at(o.seed, x, y) == w0.cell_at(o.seed, x, y));
}

/// Collect into `set` the cells an expando with `expando_volume` spills into from
/// `(x, y)` (see `spill`), growing the world around the water it passes.
fn collect_empty_neighbors(
    x: i32,
    y: i32,
    expando_index: usize,
    expando_volume: u32,
    world: &mut World,
    options: &Options,
    set: &mut Vec<(i32, i32)>,
    Ghost(w0): Ghost<World>,
    Ghost(start): Ghost<(i32, i32)>,
    Ghost(budget): Ghost<nat>,
)
    requires
        spill_state(options, &w0, old(world), expando_volume, start, old(set)@),
        old(world).in_bounds(x as int, y as int),
        dist1(x as int, start.0 as int) <= old(set)@.len(),
        dist1(y as int, start.1 as int) <= old(set)@.len(),
        budget + old(set)@.len() >= expando_volume + 2,
    ensures
        spill_state(options, &w0, final(world), expando_volume, start, final(set)@),
        (rect_of(final(world)), final(set)@) == spill(options, &w0, expando_volume, x as int, y as int, rect_of(old(world)), old(set)@, budget),
        final(set)@.len() >= old(set)@.len(),
        final(set)@.subrange(0, old(set)@.len() as int) == old(set)@,
        final(world).min_x <= old(world).min_x && final(world).min_y <= old(world).min_y,
        final(world).max_x >= old(world).max_x && final(world).max_y >= old(world).max_y,
    decreases expando_volume + 2 - old(set)@.len(),
{
    let ghost s0 = set@;
    let ghost r0 = rect_of(world);
    if set.len() > expando_volume as usize {
        assert(set@.subrange(0, s0.len() as int) =~= s0);
        return;
    }
    proof {
        lemma_tile_seen(options, &w0, world, x as int, y as int);
    }
    let t = get_cell_tile_at(options, world, x, y);
    let here = (x, y);
    if t == Tile::Empty {
        if !crate::fountain::vec_contains(set, here) {
            set.push(here);
        }
        assert(set@.subrange(0, s0.len() as int) =~= s0);
    } else if t == Tile::ExpandoWater {
        if !crate::fountain::vec_contains(set, here) {
            set.push(here);
            assert(set@.subrange(0, s0.len() as int) =~= s0);
            let ghost room = spill_room(&w0, expando_volume);
            assert(w0.min_x <= start.0 <= w0.max_x && w0.min_y <= start.1 <= w0.max_y);
            assert(room.0 < x - 1 && x + 1 < room.2 && room.1 < y - 1 && y + 1 < room.3);
            ensure_cell_in_world(world, options, x - 1, y - 1);
            ensure_cell_in_world(world, options, x + 1, y + 1);
            assert(rect_of(world) == grow_rect(grow_rect(r0, x - 1, y - 1), x + 1, y + 1));
            let ghost s1 = set@;
            collect_empty_neighbors(x - 1, y, expando_index, expando_volume, world, options, set, Ghost(w0), Ghost(start), Ghost((budget - 1) as nat));
            let ghost s2 = set@;
            collect_empty_neighbors(x + 1, y, expando_index, expando_volume, world, options, set, Ghost(w0), Ghost(start), Ghost((budget - 1) as nat));
            let ghost s3 = set@;
            collect_empty_neighbors(x, y - 1, expando_index, expando_volume, world, options, set, Ghost(w0), Ghost(start), Ghost((budget - 1) as nat));
            let ghost s4 = set@;
            collect_empty_neighbors(x, y + 1, expando_index, expando_volume, world, options, set, Ghost(w0), Ghost(start), Ghost((budget - 1) as nat));
            proof {
                assert(s2.subrange(0, s1.len() as int) == s1);
                assert(s3.subrange(0, s2.len() as int) == s2);
                assert(s4.subrange(0, s3.len() as int) == s3);
                assert(set@.subrange(0, s4.len() as int) == s4);
                assert(set@.subrange(0, s0.len() as int) =~= s0) by {
                    assert forall|i: int| 0 <= i < s0.len() implies set@[i] == s0[i] by {
                        assert(s1[i] == s0[i]);
                        assert(s2[i] == s1[i]);
                        assert(s3[i] == s2[i]);
                        assert(s4[i] == s3[i]);
                        assert(set@[i] == s4[i]);
                    }
                }
            }
        } else {
            assert(set@.subrange(0, s0.len() as int) =~= s0);
        }
    } else {
        assert(set@.subrange(0, s0.len() as int) =~= s0);
    }
}


/// Whether the expando spills this tick: its tick count reaches its speed and it
/// has volume left.
pub open spec fn expando_fires(e: Expando) -> bool {
    e.ticks_since_last_update + 1 >= e.speed && e.volume != 0
}

/// The spill search of an expando from its own cell.
pub open spec fn expando_spill(o: &Options, w: &World, e: Expando) -> (Rect, Seq<(i32, i32)>) {
    spill(o, w, e.volume, e.x as int, e.y as int, rect_of(w), Seq::empty(), (e.volume + 2) as nat)
}

/// The cells that turn into expando water: the first `volume + 1` found.
pub open spec fn flooded(o: &Options, w: &World, e: Expando) -> Seq<(i32, i32)> {
    if expando_fires(e) {
        let s = expando_spill(o, w, e).1;
        if s.len() > e.volume {
            s.take(e.volume + 1)
        } else {
            s
        }
    } else {
        Seq::empty()
    }
}

/// The expando after a tick: one tick older; when it spills, its tick count
/// restarts and, once the spill found more cells than its volume, its volume
/// is used up.
pub open spec fn expando_after_tick(o: &Options, w: &World, e: Expando) -> Expando {
    let t = (e.ticks_since_last_update + 1) as u32;
    if !expando_fires(e) {
        Expando { ticks_since_last_update: t, ..e }
    } else {
        let s = expando_spill(o, w, e).1;
        Expando { ticks_since_last_update: 0, volume: if s.len() > e.volume { 0 } else { e.volume }, ..e }
    }
}

/// `c` turned into expando water.
pub open spec fn watered(c: Cell) -> Cell {
    Cell { tile: Tile::ExpandoWater, ..c }
}

/// The expando at `i` can tick: it exists, its tick counter has room, and when it
/// spills its cell is stored and the world has room to grow around the water.
pub open spec fn expando_tickable(w: &World, i: int) -> bool {
    &&& w.wf()
    &&& 0 <= i < w.expandos@.len()
    &&& w.expandos@[i].ticks_since_last_update < u32::MAX
    &&& expando_fires(w.expandos@[i]) ==> {
        let e = w.expandos@[i];
        &&& w.in_bounds(e.x as int, e.y as int)
        &&& has_spill_room(w, e.volume)
    }
}

/// The world after one tick of the expando at `i`: when it spills, the world
/// grows around the water it reaches and the first `volume + 1` cells found
/// turn into expando water (see `spill`); the expando is updated (see
/// `expando_after_tick`).
pub open spec fn expando_ticked(o: &Options, w: &World, w2: &World, i: int) -> bool {
    let e = w.expandos@[i];
    &&& w2.wf()
    &&& w2.expandos@ == w.expandos@.update(i, expando_after_tick(o, w, e))
    &&& w2.fountains@ == w.fountains@
    &&& rect_of(w2) == (if expando_fires(e) { expando_spill(o, w, e).0 } else { rect_of(w) })
    &&& forall|x: int, y: int| #[trigger] w2.cell_at(o.seed, x, y) == (if flooded(o, w, e).contains((x as i32, y as i32)) && i32::MIN <= x <= i32::MAX && i32::MIN <= y <= i32::MAX {
        watered(w.cell_at(o.seed, x, y))
    } else {
        w.cell_at(o.seed, x, y)
    })
}

/// One tick of the expando at `expando_index`: when it spills, the world grows
/// around the water it reaches and the first `volume + 1` cells found turn into
/// expando water (see `spill`).
pub fn tick_expando(expando_index: usize, world: &mut World, options: &Options)
    requires
        expando_tickable(old(world), expando_index as int),
    ensures
        expando_ticked(options, old(world), final(world), expando_index as int),
{
    let ghost w0 = *world;
    let ghost e0 = world.expandos@[expando_index as int];
    let mut e = world.expandos[expando_index];
    e.ticks_since_last_update = e.ticks_since_last_update + 1;
    if e.ticks_since_last_update < e.speed || e.volume == 0 {
        world.expandos.set(expando_index, e);
        proof {
            crate::world::lemma_same_grid_reads(options, world, &w0);
            assert forall|x: int, y: int| #[trigger] world.cell_at(options.seed, x, y) == w0.cell_at(options.seed, x, y) by {
                assert(world.stored(x, y) == w0.stored(x, y));
            }
        }
        return;
    }
    e.ticks_since_last_update = 0;
    world.expandos.set(expando_index, e);
    let ghost w_set = *world;
    let mut set: Vec<(i32, i32)> = Vec::new();
    proof {
        assert(same_cells(options.seed, &w_set, world));
    }
    collect_empty_neighbors(e.x, e.y, expando_index, e.volume, world, options, &mut set, Ghost(w_set), Ghost((e.x, e.y)), Ghost((e.volume + 2) as nat));
    proof {
        lemma_spill_same_world(options, &w0, &w_set, e.volume, e.x as int, e.y as int);
    }
    let ghost w1 = *world;
    let limit: usize = if set.len() > e.volume as usize { e.volume as usize + 1 } else { set.len() };
    let ghost flood = set@.take(limit as int);
    let mut k: usize = 0;
    while k < limit
        invariant
            k <= limit <= set@.len(),
            flood == set@.take(limit as int),
            w1.wf(),
            world.wf(),
            rect_of(world) == rect_of(&w1),
            world.expandos@ == w1.expandos@,
            world.fountains@ == w1.fountains@,
            forall|i: int| 0 <= i < set@.len() ==> w1.in_bounds(#[trigger] set@[i].0 as int, set@[i].1 as int),
            forall|x: int, y: int| #[trigger] world.cell_at(options.seed, x, y) == (if set@.take(k as int).contains((x as i32, y as i32)) && i32::MIN <= x <= i32::MAX && i32::MIN <= y <= i32::MAX {
                watered(w1.cell_at(options.seed, x, y))
            } else {
                w1.cell_at(options.seed, x, y)
            }),
        decreases limit - k,
    {
        let (wx, wy) = set[k];
        let ghost before = *world;
        set_cell_tile_at(options, world, wx, wy, Tile::ExpandoWater);
        proof {
            assert forall|x: int, y: int| #[trigger] world.cell_at(options.seed, x, y) == (if set@.take(k + 1).contains((x as i32, y as i32)) && i32::MIN <= x <= i32::MAX && i32::MIN <= y <= i32::MAX {
                watered(w1.cell_at(options.seed, x, y))
            } else {
                w1.cell_at(options.seed, x, y)
            }) by {
                assert(set@.take(k + 1) =~= set@.take(k as int).push((wx, wy)));
                assert(before.cell_at(options.seed, x, y) == (if set@.take(k as int).contains((x as i32, y as i32)) && i32::MIN <= x <= i32::MAX && i32::MIN <= y <= i32::MAX {
                    watered(w1.cell_at(options.seed, x, y))
                } else {
                    w1.cell_at(options.seed, x, y)
                }));
                if x == wx && y == wy {
                    assert(set@.take(k + 1).contains((x as i32, y as i32))) by {
                        assert(set@.take(k + 1)[k as int] == (wx, wy));
                    }
                } else {
                    if set@.take(k + 1).contains((x as i32, y as i32)) && i32::MIN <= x <= i32::MAX && i32::MIN <= y <= i32::MAX {
                        let j = choose|j: int| 0 <= j < k + 1 && #[trigger] set@.take(k + 1)[j] == (x as i32, y as i32);
                        assert(j < k);
                        assert(set@.take(k as int)[j] == (x as i32, y as i32));
                    }
                }
            }
        }
        k = k + 1;
    }
    let ghost w2 = *world;
    if set.len() > e.volume as usize {
        e.volume = 0;
        world.expandos.set(expando_index, e);
    }
    proof {
        crate::world::lemma_same_grid_reads(options, world, &w2);
        assert(set@.take(limit as int) =~= flooded(options, &w0, e0));
        assert forall|x: int, y: int| #[trigger] world.cell_at(options.seed, x, y) == (if flooded(options, &w0, e0).contains((x as i32, y as i32)) && i32::MIN <= x <= i32::MAX && i32::MIN <= y <= i32::MAX {
            watered(w0.cell_at(options.seed, x, y))
        } else {
            w0.cell_at(options.seed, x, y)
        }) by {
            assert(world.stored(x, y) == w2.stored(x, y));
            assert(w2.cell_at(options.seed, x, y) == world.cell_at(options.seed, x, y));
            assert(w_set.cell_at(options.seed, x, y) == w0.cell_at(options.seed, x, y));
            assert(w1.cell_at(options.seed, x, y) == w_set.cell_at(options.seed, x, y));
        }
        assert forall|x: int, y: int| #[trigger] w1.cell_at(options.seed, x, y) == w0.cell_at(options.seed, x, y) by {
            assert(w_set.cell_at(options.seed, x, y) == w0.cell_at(options.seed, x, y));
        }
        assert(world.expandos@ =~= w0.expandos@.update(expando_index as int, expando_after_tick(options, &w0, e0)));
    }
}

proof fn lemma_spill_same_world(o: &Options, a: &World, b: &World, volume: u32, x: int, y: int)
    requires
        a.tiles@ == b.tiles@,
        a.min_x == b.min_x && a.min_y == b.min_y && a.max_x == b.max_x && a.max_y == b.max_y,
    ensures
        spill(o, a, volume, x, y, rect_of(a), Seq::empty(), (volume + 2) as nat) == spill(o, b, volume, x, y, rect_of(b), Seq::empty(), (volume + 2) as nat),
{
    crate::world::lemma_same_grid_reads(o, a, b);
    assert forall|px: int, py: int| #[trigger] a.cell_at(o.seed, px, py) == b.cell_at(o.seed, px, py) by {
        assert(a.stored(px, py) == b.stored(px, py));
    }
    lemma_spill_same_cells(o, a, b, volume, x, y, rect_of(a), Seq::empty(), (volume + 2) as nat);
}

proof fn lemma_spill_same_cells(o: &Options, a: &World, b: &World, volume: u32, x: int, y: int, r: Rect, set: Seq<(i32, i32)>, budget: nat)
    requires
        forall|px: int, py: int| #[trigger] a.cell_at(o.seed, px, py) == b.cell_at(o.seed, px, py),
    ensures
        spill(o, a, volume, x, y, r, set, budget) == spill(o, b, volume, x, y, r, set, budget),
    decreases budget,
{
    assert(tile_seen(o, a, r, x, y) == tile_seen(o, b, r, x, y)) by {
        assert(a.cell_at(o.seed, x, y) == b.cell_at(o.seed, x, y));
    }
    if !(set.len() > volume || budget == 0) && tile_seen(o, a, r, x, y) == Tile::ExpandoWater && !set.contains((x as i32, y as i32)) {
        let s1 = set.push((x as i32, y as i32));
        let r1 = grow_rect(grow_rect(r, x - 1, y - 1), x + 1, y + 1);
        let bb = (budget - 1) as nat;
        lemma_spill_same_cells(o, a, b, volume, x - 1, y, r1, s1, bb);
        let p = spill(o, a, volume, x - 1, y, r1, s1, bb);
        lemma_spill_same_cells(o, a, b, volume, x + 1, y, p.0, p.1, bb);
        let q = spill(o, a, volume, x + 1, y, p.0, p.1, bb);
        lemma_spill_same_cells(o, a, b, volume, x, y - 1, q.0, q.1, bb);
        let u = spill(o, a, volume, x, y - 1, q.0, q.1, bb);
        lemma_spill_same_cells(o, a, b, volume, x, y + 1, u.0, u.1, bb);
    }
}

} // verus!
