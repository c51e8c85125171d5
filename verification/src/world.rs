//! The procedurally generated, lazily materialised world grid.
//!
//! Every coordinate has a cell determined by the world seed alone. Only the part
//! of the world that was visited (or changed) is stored, in a rectangle that
//! always contains the origin and only grows.

use vstd::prelude::*;
use std::collections::VecDeque;
use crate::cell::Cell;
use crate::tile::Tile;
use crate::pickup::Pickup;
use crate::options::Options;
use crate::expando::Expando;
use crate::fountain::Fountain;
use crate::rng::{pcg64_first_draws, pcg64_draw};

verus! {

/// Smallest number of cells an expando revealed in a wall spills into.
pub const MIN_EXPANDO_SIZE: u32 = 5;
/// Largest number of cells an expando revealed in a wall spills into.
pub const MAX_EXPANDO_SIZE: u32 = 10;

/// The stream seed of the cell at `(x, y)`: the world seed plus `x` shifted up by
/// 32 bits plus `y`, wrapped to 64 bits.
pub open spec fn cell_seed(seed: u64, x: int, y: int) -> u64 {
    ((seed + x * 0x1_0000_0000 + y) % 0x1_0000_0000_0000_0000) as u64
}

/// The 24-bit roll of the `index`-th draw of a cell: the roll `v` stands for the
/// uniform float `v / 2^24` in `[0, 1)`.
pub open spec fn roll(seed: u64, x: int, y: int, index: int) -> int {
    pcg64_draw(cell_seed(seed, x, y), index) as int / 256
}

/// `p` rounded to the nearest multiple of `m`, ties to the even multiple.
pub open spec fn round_even_to(p: int, m: int) -> int {
    let lo = p / m * m;
    let rem = p - lo;
    if rem * 2 < m {
        lo
    } else if rem * 2 > m {
        lo + m
    } else if (p / m) % 2 == 0 {
        lo
    } else {
        lo + m
    }
}

/// `p` rounded to 24 significant bits (ties to even), for `0 <= p < 2^27`.
pub open spec fn round_to_f32_grid(p: int) -> int {
    if p < 0x100_0000 {
        p
    } else if p < 0x200_0000 {
        round_even_to(p, 2)
    } else if p < 0x400_0000 {
        round_even_to(p, 4)
    } else {
        round_even_to(p, 8)
    }
}

/// The spill size of an expando whose size roll is `v`: the minimum size plus
/// `(MAX - MIN) * v / 2^24` evaluated in single precision and rounded half up.
pub open spec fn expando_size(v: int) -> int {
    MIN_EXPANDO_SIZE + (round_to_f32_grid((MAX_EXPANDO_SIZE - MIN_EXPANDO_SIZE) * v) + 0x80_0000)
        / 0x100_0000
}

/// Roll thresholds: a roll `v` is below the float `c` exactly when `v < ceil(c * 2^24)`.
pub open spec fn below_0_01(v: int) -> bool { v < 167773 }
pub open spec fn below_0_05(v: int) -> bool { v < 838861 }
pub open spec fn below_0_1(v: int) -> bool { v < 1677722 }
pub open spec fn below_0_4(v: int) -> bool { v < 6710887 }
pub open spec fn below_0_41(v: int) -> bool { v < 6878659 }

/// The cell that the world seed places at `(x, y)` before anything changes it.
///
/// 5% of the cells hold energy (1% wind instead), 40% of the rest are walls
/// (10% strength 3, 30% strength 2, 60% strength 1) of value 2 (10%), 1 (30%) or
/// 0, hiding a diamond (10%), wood (30%), an expando (1%) or a stone.
#[verifier::opaque]
pub open spec fn spec_generate_cell(seed: u64, x: int, y: int) -> Cell {
    let energy_roll = roll(seed, x, y, 0);
    let wall_roll = roll(seed, x, y, 1);
    if below_0_05(energy_roll) {
        if below_0_01(energy_roll) {
            Cell { tile: Tile::Empty, pickup: Pickup::Wind, tile_value: 0, pickup_value: 0, visited: 0 }
        } else {
            Cell { tile: Tile::Empty, pickup: Pickup::Energy, tile_value: 0, pickup_value: 0, visited: 0 }
        }
    } else if below_0_4(wall_roll) {
        let kind_roll = roll(seed, x, y, 2);
        let value_roll = roll(seed, x, y, 3);
        let reward_roll = roll(seed, x, y, 4);
        let tile_value: u32 = if below_0_1(value_roll) {
            2
        } else if below_0_4(value_roll) {
            1
        } else {
            0
        };
        let pickup = if below_0_1(reward_roll) {
            Pickup::Diamond
        } else if below_0_4(reward_roll) {
            Pickup::Wood
        } else if below_0_41(reward_roll) {
            Pickup::Expando
        } else {
            Pickup::Stone
        };
        let pickup_value: u32 = if pickup == Pickup::Expando {
            expando_size(roll(seed, x, y, 5)) as u32
        } else {
            tile_value
        };
        let tile = if below_0_1(kind_roll) {
            Tile::Wall3
        } else if below_0_4(kind_roll) {
            Tile::Wall2
        } else {
            Tile::Wall1
        };
        Cell { tile, pickup, tile_value, pickup_value, visited: 0 }
    } else {
        Cell { tile: Tile::Empty, pickup: Pickup::Nothing, tile_value: 0, pickup_value: 0, visited: 0 }
    }
}

fn stream_seed(seed: u64, x: i32, y: i32) -> (r: u64)
    ensures
        r == cell_seed(seed, x as int, y as int),
{
    // Shift both coordinates to be non-negative; the offsets add up to 2^64.
    let ux: u128 = (x as i64 + 0x8000_0000i64) as u128;
    let uy: u128 = (y as i64 + 0x8000_0000i64) as u128;
    let total: u128 = seed as u128 + ux * 0x1_0000_0000u128 + uy + 0x7fff_ffff_8000_0000u128;
    let r = (total % 0x1_0000_0000_0000_0000u128) as u64;
    proof {
        let a = seed + x * 0x1_0000_0000 + y;
        assert(total == a + 0x1_0000_0000_0000_0000);
        vstd::arithmetic::div_mod::lemma_mod_add_multiples_vanish(a, 0x1_0000_0000_0000_0000);
    }
    r
}

fn round_even_to_exec(p: u64, m: u64) -> (r: u64)
    requires
        m == 2 || m == 4 || m == 8,
        p < 0x800_0000,
    ensures
        r == round_even_to(p as int, m as int),
{
    let lo = p / m * m;
    let rem = p - lo;
    if rem * 2 < m {
        lo
    } else if rem * 2 > m {
        lo + m
    } else if (p / m) % 2 == 0 {
        lo
    } else {
        lo + m
    }
}

fn expando_size_exec(v: u32) -> (r: u32)
    requires
        v < 0x100_0000,
    ensures
        r == expando_size(v as int),
{
    assert(MAX_EXPANDO_SIZE - MIN_EXPANDO_SIZE == 5);
    let p: u64 = v as u64 * 5;
    let g: u64 = if p < 0x100_0000 {
        p
    } else if p < 0x200_0000 {
        round_even_to_exec(p, 2)
    } else if p < 0x400_0000 {
        round_even_to_exec(p, 4)
    } else {
        round_even_to_exec(p, 8)
    };
    assert(g <= 0x800_0000) by {
        assert(p < 0x500_0000);
    }
    MIN_EXPANDO_SIZE + ((g + 0x80_0000) / 0x100_0000) as u32
}

/// The cell that the world seed places at `(x, y)` (see `spec_generate_cell`).
pub fn generate_cell(options: &Options, x: i32, y: i32) -> (r: Cell)
    ensures
        r == spec_generate_cell(options.seed, x as int, y as int),
{
    reveal(spec_generate_cell);
    let s = stream_seed(options.seed, x, y);
    let d = pcg64_first_draws(s);
    let energy_roll = d[0] >> 8;
    let wall_roll = d[1] >> 8;
    let kind_roll = d[2] >> 8;
    let value_roll = d[3] >> 8;
    let reward_roll = d[4] >> 8;
    let size_roll = d[5] >> 8;
    proof {
        assert(d@[0] == pcg64_draw(s, 0));
        assert(d@[1] == pcg64_draw(s, 1));
        assert(d@[2] == pcg64_draw(s, 2));
        assert(d@[3] == pcg64_draw(s, 3));
        assert(d@[4] == pcg64_draw(s, 4));
        assert(d@[5] == pcg64_draw(s, 5));
        let d0 = d[0];
        let d1 = d[1];
        let d2 = d[2];
        let d3 = d[3];
        let d4 = d[4];
        let d5 = d[5];
        assert(d0 >> 8 == d0 / 256) by (bit_vector);
        assert(d1 >> 8 == d1 / 256) by (bit_vector);
        assert(d2 >> 8 == d2 / 256) by (bit_vector);
        assert(d3 >> 8 == d3 / 256) by (bit_vector);
        assert(d4 >> 8 == d4 / 256) by (bit_vector);
        assert(d5 >> 8 == d5 / 256) by (bit_vector);
    }
    if energy_roll < 838861 {
        if energy_roll < 167773 {
            return Cell { tile: Tile::Empty, pickup: Pickup::Wind, tile_value: 0, pickup_value: 0, visited: 0 };
        }
        return Cell { tile: Tile::Empty, pickup: Pickup::Energy, tile_value: 0, pickup_value: 0, visited: 0 };
    }
    if wall_roll < 6710887 {
        let tile_value: u32 = if value_roll < 1677722 {
            2
        } else if value_roll < 6710887 {
            1
        } else {
            0
        };
        let mut pickup_value = tile_value;
        let reward_value = if reward_roll < 1677722 {
            Pickup::Diamond
        } else if reward_roll < 6710887 {
            Pickup::Wood
        } else if reward_roll < 6878659 {
            pickup_value = expando_size_exec(size_roll);
            Pickup::Expando
        } else {
            Pickup::Stone
        };
        if kind_roll < 1677722 {
            return Cell { tile: Tile::Wall3, pickup: reward_value, tile_value, pickup_value, visited: 0 };
        }
        if kind_roll < 6710887 {
            return Cell { tile: Tile::Wall2, pickup: reward_value, tile_value, pickup_value, visited: 0 };
        }
        return Cell { tile: Tile::Wall1, pickup: reward_value, tile_value, pickup_value, visited: 0 };
    }
    Cell { tile: Tile::Empty, pickup: Pickup::Nothing, tile_value: 0, pickup_value: 0, visited: 0 }
}

} // verus!

verus! {

/// The stored part of the world: rows from `min_y` to `max_y`, each holding the
/// cells from `min_x` to `max_x`.
pub type Grid = VecDeque<VecDeque<Cell>>;

/// A world: the rectangle of stored cells plus the fluid actors living in it.
#[derive(Debug)]
pub struct World {
    pub min_x: i32,
    pub min_y: i32,
    pub max_x: i32,
    pub max_y: i32,
    /// `tiles[y - min_y][x - min_x]` is the cell at `(x, y)`.
    pub tiles: Grid,
    pub expandos: Vec<Expando>,
    pub fountains: Vec<Fountain>,
}

/// The cells generated for `count` consecutive columns starting at `from_x` on row `y`.
pub open spec fn gen_row(seed: u64, from_x: int, count: int, y: int) -> Seq<Cell> {
    Seq::new(count as nat, |k: int| spec_generate_cell(seed, from_x + k, y))
}

/// Whether a rectangle of `lo..=hi` fits the 32-bit coordinates the game uses.
pub open spec fn span_fits(lo: int, hi: int) -> bool {
    i32::MIN < lo && hi - lo + 1 <= i32::MAX
}

impl World {
    /// The stored rectangle contains the origin, its sizes fit in an `i32`, and the
    /// grid has exactly one row per `y` and one cell per `x` of the rectangle.
    pub open spec fn wf(&self) -> bool {
        &&& self.min_x <= 0 <= self.max_x
        &&& self.min_y <= 0 <= self.max_y
        &&& span_fits(self.min_x as int, self.max_x as int)
        &&& span_fits(self.min_y as int, self.max_y as int)
        &&& self.tiles@.len() == self.max_y - self.min_y + 1
        &&& forall|j: int|
            0 <= j < self.tiles@.len() ==> (#[trigger] self.tiles@[j])@.len() == self.max_x
                - self.min_x + 1
    }

    /// Whether `(x, y)` lies in the stored rectangle.
    pub open spec fn in_bounds(&self, x: int, y: int) -> bool {
        self.min_x <= x <= self.max_x && self.min_y <= y <= self.max_y
    }

    /// The stored cell at `(x, y)` (meaningful inside the rectangle).
    pub open spec fn stored(&self, x: int, y: int) -> Cell {
        self.tiles@[y - self.min_y]@[x - self.min_x]
    }

    /// The cell at `(x, y)`: the stored one inside the rectangle, the generated one outside.
    pub open spec fn cell_at(&self, seed: u64, x: int, y: int) -> Cell {
        if self.in_bounds(x, y) {
            self.stored(x, y)
        } else {
            spec_generate_cell(seed, x, y)
        }
    }

    /// The rectangle of `self` lies inside the rectangle of `other`.
    pub open spec fn bounds_within(&self, other: &World) -> bool {
        other.min_x <= self.min_x && self.max_x <= other.max_x && other.min_y <= self.min_y
            && self.max_y <= other.max_y
    }
}

/// `new` shows, at every coordinate, the same cell as `old`.
pub open spec fn same_cells(seed: u64, old: &World, new: &World) -> bool {
    forall|x: int, y: int| #[trigger] new.cell_at(seed, x, y) == old.cell_at(seed, x, y)
}

/// Everything but the stored cell at `(x, y)` is unchanged.
pub open spec fn only_cell_changed(old: &World, new: &World, x: int, y: int) -> bool {
    &&& new.min_x == old.min_x && new.min_y == old.min_y
    &&& new.max_x == old.max_x && new.max_y == old.max_y
    &&& new.expandos@ == old.expandos@
    &&& new.fountains@ == old.fountains@
    &&& new.wf()
    &&& forall|qx: int, qy: int|
        new.in_bounds(qx, qy) && (qx != x || qy != y) ==> #[trigger] new.stored(qx, qy)
            == old.stored(qx, qy)
}

/// If the rectangle only grew and every newly stored cell equals what the old
/// world showed there, then every coordinate still shows the same cell.
proof fn lemma_same_cells(seed: u64, old: &World, new: &World)
    requires
        old.bounds_within(new),
        forall|x: int, y: int| new.in_bounds(x, y) ==> #[trigger] new.stored(x, y) == old.cell_at(seed, x, y),
    ensures
        same_cells(seed, old, new),
{
    assert forall|x: int, y: int| #[trigger] new.cell_at(seed, x, y) == old.cell_at(seed, x, y) by {
        if new.in_bounds(x, y) {
            assert(new.stored(x, y) == old.cell_at(seed, x, y));
        }
    }
}

/// The cells of `gen_row(seed, from_x, count, y)`.
fn generated_row(options: &Options, from_x: i32, count: i32, y: i32) -> (r: VecDeque<Cell>)
    requires
        count >= 0,
        from_x + count <= i32::MAX + 1,
    ensures
        r@ == gen_row(options.seed, from_x as int, count as int, y as int),
{
    let mut row: VecDeque<Cell> = VecDeque::new();
    let mut i: i32 = 0;
    while i < count
        invariant
            0 <= i <= count,
            from_x + count <= i32::MAX + 1,
            row@ == gen_row(options.seed, from_x as int, i as int, y as int),
        decreases count - i,
    {
        let cell = generate_cell(options, from_x + i, y);
        row.push_back(cell);
        assert(row@ =~= gen_row(options.seed, from_x as int, i + 1, y as int));
        i = i + 1;
    }
    row
}

/// Prepend the `n` generated cells left of `min_x` to a row.
fn prepend_generated(row: &mut VecDeque<Cell>, options: &Options, min_x: i32, n: i32, y: i32)
    requires
        n >= 0,
        min_x - n >= i32::MIN,
    ensures
        final(row)@ == gen_row(options.seed, min_x - n, n as int, y as int) + old(row)@,
{
    let mut i: i32 = 0;
    while i < n
        invariant
            0 <= i <= n,
            min_x - n >= i32::MIN,
            row@ == gen_row(options.seed, min_x - i, i as int, y as int) + old(row)@,
        decreases n - i,
    {
        let cell = generate_cell(options, min_x - (i + 1), y);
        row.push_front(cell);
        assert(row@ =~= gen_row(options.seed, min_x - (i + 1), i + 1, y as int) + old(row)@);
        i = i + 1;
    }
}

/// Append the `n` generated cells right of `max_x` to a row.
fn append_generated(row: &mut VecDeque<Cell>, options: &Options, max_x: i32, n: i32, y: i32)
    requires
        n >= 0,
        max_x + n <= i32::MAX,
    ensures
        final(row)@ == old(row)@ + gen_row(options.seed, max_x + 1, n as int, y as int),
{
    let mut i: i32 = 0;
    while i < n
        invariant
            0 <= i <= n,
            max_x + n <= i32::MAX,
            row@ == old(row)@ + gen_row(options.seed, max_x + 1, i as int, y as int),
        decreases n - i,
    {
        let cell = generate_cell(options, max_x + (i + 1), y);
        row.push_back(cell);
        assert(row@ =~= old(row)@ + gen_row(options.seed, max_x + 1, i + 1, y as int));
        i = i + 1;
    }
}

/// Prepend the generated columns `x..min_x` to every stored row.
fn prepend_columns(world: &mut World, options: &Options, x: i32)
    requires
        old(world).wf(),
        x < old(world).min_x,
        span_fits(x as int, old(world).max_x as int),
    ensures
        final(world).wf(),
        final(world).min_x == x,
        final(world).max_x == old(world).max_x,
        final(world).min_y == old(world).min_y,
        final(world).max_y == old(world).max_y,
        final(world).expandos@ == old(world).expandos@,
        final(world).fountains@ == old(world).fountains@,
        forall|qx: int, qy: int|
            final(world).in_bounds(qx, qy) ==> #[trigger] final(world).stored(qx, qy)
                == old(world).cell_at(options.seed, qx, qy),
{
    let ghost old_w = *world;
    let ghost seed = options.seed;
    let height = world.max_y - world.min_y + 1;
    let to_prepend = world.min_x - x;
    let min_x = world.min_x;
    let min_y = world.min_y;
    let mut new_tiles: Grid = VecDeque::new();
    let mut j: i32 = 0;
    while j < height
        invariant
            0 <= j <= height,
            height == old_w.max_y - old_w.min_y + 1,
            old_w.wf(),
            min_x == old_w.min_x,
            min_y == old_w.min_y,
            to_prepend == old_w.min_x - x,
            x < old_w.min_x,
            span_fits(x as int, old_w.max_x as int),
            world.tiles@ == old_w.tiles@.skip(j as int),
            seed == options.seed,
            world.min_x == old_w.min_x,
            world.max_x == old_w.max_x,
            world.min_y == old_w.min_y,
            world.max_y == old_w.max_y,
            world.expandos == old_w.expandos,
            world.fountains == old_w.fountains,
            new_tiles@.len() == j,
            forall|k: int|
                0 <= k < j ==> (#[trigger] new_tiles@[k])@ == gen_row(seed, x as int, to_prepend as int, min_y + k)
                    + old_w.tiles@[k]@,
        decreases height - j,
    {
        let popped = world.tiles.pop_front();
        match popped {
            Some(mut row) => {
                assert(row == old_w.tiles@[j as int]);
                prepend_generated(&mut row, options, min_x, to_prepend, min_y + j);
                let ghost new_row = row;
                let ghost before_new = new_tiles@;
                new_tiles.push_back(row);
                assert(new_tiles@ == before_new.push(new_row));
                assert forall|k: int| 0 <= k < j + 1 implies (#[trigger] new_tiles@[k])@ == gen_row(seed, x as int, to_prepend as int, min_y + k)
                    + old_w.tiles@[k]@ by {
                    if k < j {
                        assert(new_tiles@[k] == before_new[k]);
                    }
                }
            },
            None => {
                assert(false);
            },
        }
        assert(world.tiles@ =~= old_w.tiles@.skip(j + 1));
        j = j + 1;
    }
    let ghost new_tiles_view = new_tiles@;
    world.tiles = new_tiles;
    world.min_x = x;

    proof {
        assert forall|k: int| 0 <= k < world.tiles@.len() implies (#[trigger] world.tiles@[k])@.len()
            == world.max_x - world.min_x + 1 by {
            assert(old_w.tiles@[k]@.len() == old_w.max_x - old_w.min_x + 1);
            assert(world.tiles@[k] == new_tiles_view[k]);
        }
        assert forall|qx: int, qy: int| world.in_bounds(qx, qy) implies #[trigger] world.stored(qx, qy)
            == old_w.cell_at(seed, qx, qy) by {
            let k = qy - min_y;
            assert(world.tiles@[k]@ == gen_row(seed, x as int, to_prepend as int, min_y + k) + old_w.tiles@[k]@);
            assert(old_w.tiles@[k]@.len() == old_w.max_x - old_w.min_x + 1);
        }
    }
}

/// Append the generated columns `max_x + 1..=x` to every stored row.
fn append_columns(world: &mut World, options: &Options, x: i32)
    requires
        old(world).wf(),
        x > old(world).max_x,
        span_fits(old(world).min_x as int, x as int),
    ensures
        final(world).wf(),
        final(world).min_x == old(world).min_x,
        final(world).max_x == x,
        final(world).min_y == old(world).min_y,
        final(world).max_y == old(world).max_y,
        final(world).expandos@ == old(world).expandos@,
        final(world).fountains@ == old(world).fountains@,
        forall|qx: int, qy: int|
            final(world).in_bounds(qx, qy) ==> #[trigger] final(world).stored(qx, qy)
                == old(world).cell_at(options.seed, qx, qy),
{
    let ghost old_w = *world;
    let ghost seed = options.seed;
    let height = world.max_y - world.min_y + 1;
    let to_append = x - world.max_x;
    let max_x = world.max_x;
    let min_y = world.min_y;
    let mut new_tiles: Grid = VecDeque::new();
    let mut j: i32 = 0;
    while j < height
        invariant
            0 <= j <= height,
            height == old_w.max_y - old_w.min_y + 1,
            old_w.wf(),
            max_x == old_w.max_x,
            min_y == old_w.min_y,
            to_append == x - old_w.max_x,
            x > old_w.max_x,
            span_fits(old_w.min_x as int, x as int),
            world.tiles@ == old_w.tiles@.skip(j as int),
            seed == options.seed,
            world.min_x == old_w.min_x,
            world.max_x == old_w.max_x,
            world.min_y == old_w.min_y,
            world.max_y == old_w.max_y,
            world.expandos == old_w.expandos,
            world.fountains == old_w.fountains,
            new_tiles@.len() == j,
            forall|k: int|
                0 <= k < j ==> (#[trigger] new_tiles@[k])@ == old_w.tiles@[k]@ + gen_row(seed, max_x + 1, to_append as int, min_y + k),
        decreases height - j,
    {
        let popped = world.tiles.pop_front();
        match popped {
            Some(mut row) => {
                assert(row == old_w.tiles@[j as int]);
                append_generated(&mut row, options, max_x, to_append, min_y + j);
                let ghost new_row = row;
                let ghost before_new = new_tiles@;
                new_tiles.push_back(row);
                assert(new_tiles@ == before_new.push(new_row));
                assert forall|k: int| 0 <= k < j + 1 implies (#[trigger] new_tiles@[k])@ == old_w.tiles@[k]@ + gen_row(seed, max_x + 1, to_append as int, min_y + k) by {
                    if k < j {
                        assert(new_tiles@[k] == before_new[k]);
                    }
                }
            },
            None => {
                assert(false);
            },
        }
        assert(world.tiles@ =~= old_w.tiles@.skip(j + 1));
        j = j + 1;
    }
    let ghost new_tiles_view = new_tiles@;
    world.tiles = new_tiles;
    world.max_x = x;
    proof {
        assert forall|k: int| 0 <= k < world.tiles@.len() implies (#[trigger] world.tiles@[k])@.len()
            == world.max_x - world.min_x + 1 by {
            assert(old_w.tiles@[k]@.len() == old_w.max_x - old_w.min_x + 1);
            assert(world.tiles@[k] == new_tiles_view[k]);
        }
        assert forall|qx: int, qy: int| world.in_bounds(qx, qy) implies #[trigger] world.stored(qx, qy)
            == old_w.cell_at(seed, qx, qy) by {
            let k = qy - min_y;
            assert(world.tiles@[k]@ == old_w.tiles@[k]@ + gen_row(seed, max_x + 1, to_append as int, min_y + k));
            assert(old_w.tiles@[k]@.len() == old_w.max_x - old_w.min_x + 1);
        }
    }
}

/// Prepend the generated rows `y..min_y` to the grid.
fn prepend_rows(world: &mut World, options: &Options, y: i32)
    requires
        old(world).wf(),
        y < old(world).min_y,
        span_fits(y as int, old(world).max_y as int),
    ensures
        final(world).wf(),
        final(world).min_y == y,
        final(world).max_y == old(world).max_y,
        final(world).min_x == old(world).min_x,
        final(world).max_x == old(world).max_x,
        final(world).expandos@ == old(world).expandos@,
        final(world).fountains@ == old(world).fountains@,
        forall|qx: int, qy: int|
            final(world).in_bounds(qx, qy) ==> #[trigger] final(world).stored(qx, qy)
                == old(world).cell_at(options.seed, qx, qy),
{
    let ghost old_w = *world;
    let ghost seed = options.seed;
    let width = world.max_x - world.min_x + 1;
    let to_prepend = world.min_y - y;
    let min_x = world.min_x;
    let min_y = world.min_y;
    let mut j: i32 = 0;
    while j < to_prepend
        invariant
            0 <= j <= to_prepend,
            to_prepend == old_w.min_y - y,
            width == old_w.max_x - old_w.min_x + 1,
            old_w.wf(),
            min_x == old_w.min_x,
            min_y == old_w.min_y,
            y < old_w.min_y,
            span_fits(y as int, old_w.max_y as int),
            seed == options.seed,
            world.min_x == old_w.min_x,
            world.max_x == old_w.max_x,
            world.min_y == old_w.min_y,
            world.max_y == old_w.max_y,
            world.expandos == old_w.expandos,
            world.fountains == old_w.fountains,
            world.tiles@.len() == j + old_w.tiles@.len(),
            world.tiles@.skip(j as int) == old_w.tiles@,
            forall|k: int|
                0 <= k < j ==> (#[trigger] world.tiles@[k])@ == gen_row(seed, min_x as int, width as int, min_y - j + k),
        decreases to_prepend - j,
    {
        let row = generated_row(options, min_x, width, min_y - (j + 1));
        let ghost before = world.tiles@;
        world.tiles.push_front(row);
        assert(world.tiles@ == seq![row] + before);
        assert(world.tiles@.skip(j + 1) =~= before.skip(j as int));
        assert forall|k: int| 0 <= k < j + 1 implies (#[trigger] world.tiles@[k])@ == gen_row(seed, min_x as int, width as int, min_y - (j + 1) + k) by {
            if k > 0 {
                assert(world.tiles@[k] == before[k - 1]);
            }
        }
        j = j + 1;
    }
    world.min_y = y;
    proof {
        assert forall|k: int| 0 <= k < world.tiles@.len() implies (#[trigger] world.tiles@[k])@.len()
            == world.max_x - world.min_x + 1 by {
            if k >= to_prepend {
                assert(world.tiles@[k] == old_w.tiles@[k - to_prepend]);
            }
        }
        assert forall|qx: int, qy: int| world.in_bounds(qx, qy) implies #[trigger] world.stored(qx, qy)
            == old_w.cell_at(seed, qx, qy) by {
            let k = qy - y;
            if k >= to_prepend {
                assert(world.tiles@[k] == old_w.tiles@[k - to_prepend]);
            }
        }
    }
}

/// Append the generated rows `max_y + 1..=y` to the grid.
fn append_rows(world: &mut World, options: &Options, y: i32)
    requires
        old(world).wf(),
        y > old(world).max_y,
        span_fits(old(world).min_y as int, y as int),
    ensures
        final(world).wf(),
        final(world).min_y == old(world).min_y,
        final(world).max_y == y,
        final(world).min_x == old(world).min_x,
        final(world).max_x == old(world).max_x,
        final(world).expandos@ == old(world).expandos@,
        final(world).fountains@ == old(world).fountains@,
        forall|qx: int, qy: int|
            final(world).in_bounds(qx, qy) ==> #[trigger] final(world).stored(qx, qy)
                == old(world).cell_at(options.seed, qx, qy),
{
    let ghost old_w = *world;
    let ghost seed = options.seed;
    let width = world.max_x - world.min_x + 1;
    let to_append = y - world.max_y;
    let min_x = world.min_x;
    let max_y = world.max_y;
    let mut j: i32 = 0;
    while j < to_append
        invariant
            0 <= j <= to_append,
            to_append == y - old_w.max_y,
            width == old_w.max_x - old_w.min_x + 1,
            old_w.wf(),
            min_x == old_w.min_x,
            max_y == old_w.max_y,
            y > old_w.max_y,
            span_fits(old_w.min_y as int, y as int),
            seed == options.seed,
            world.min_x == old_w.min_x,
            world.max_x == old_w.max_x,
            world.min_y == old_w.min_y,
            world.max_y == old_w.max_y,
            world.expandos == old_w.expandos,
            world.fountains == old_w.fountains,
            world.tiles@.len() == old_w.tiles@.len() + j,
            world.tiles@.take(old_w.tiles@.len() as int) == old_w.tiles@,
            forall|k: int|
                0 <= k < j ==> (#[trigger] world.tiles@[old_w.tiles@.len() + k])@ == gen_row(seed, min_x as int, width as int, max_y + 1 + k),
        decreases to_append - j,
    {
        let row = generated_row(options, min_x, width, max_y + (j + 1));
        let ghost before = world.tiles@;
        world.tiles.push_back(row);
        assert(world.tiles@ == before.push(row));
        assert(world.tiles@.take(old_w.tiles@.len() as int) =~= before.take(old_w.tiles@.len() as int));
        assert forall|k: int| 0 <= k < j + 1 implies (#[trigger] world.tiles@[old_w.tiles@.len() + k])@ == gen_row(seed, min_x as int, width as int, max_y + 1 + k) by {
            if k < j {
                assert(world.tiles@[old_w.tiles@.len() + k] == before[old_w.tiles@.len() + k]);
            }
        }
        j = j + 1;
    }
    world.max_y = y;
    proof {
        let n = old_w.tiles@.len() as int;
        assert forall|k: int| 0 <= k < world.tiles@.len() implies (#[trigger] world.tiles@[k])@.len()
            == world.max_x - world.min_x + 1 by {
            if k < n {
                assert(world.tiles@[k] == world.tiles@.take(n)[k]);
            } else {
                assert(world.tiles@[n + (k - n)]@ == gen_row(seed, min_x as int, width as int, max_y + 1 + (k - n)));
            }
        }
        assert forall|qx: int, qy: int| world.in_bounds(qx, qy) implies #[trigger] world.stored(qx, qy)
            == old_w.cell_at(seed, qx, qy) by {
            let k = qy - old_w.min_y;
            if k < n {
                assert(world.tiles@[k] == world.tiles@.take(n)[k]);
            } else {
                assert(world.tiles@[n + (k - n)]@ == gen_row(seed, min_x as int, width as int, max_y + 1 + (k - n)));
            }
        }
    }
}


/// A change to one field of a stored cell.
#[derive(Debug, Clone, Copy, PartialEq, Eq, Structural)]
pub enum CellEdit {
    Tile(Tile),
    Value(u32),
    Pickup(Pickup),
    PickupValue(u32),
}

/// `c` with the edit applied.
pub open spec fn apply_edit(c: Cell, e: CellEdit) -> Cell {
    match e {
        CellEdit::Tile(t) => Cell { tile: t, ..c },
        CellEdit::Value(v) => Cell { tile_value: v, ..c },
        CellEdit::Pickup(p) => Cell { pickup: p, ..c },
        CellEdit::PickupValue(v) => Cell { pickup_value: v, ..c },
    }
}

/// The stored cell at `(x, y)` after applying `edits` in order.
pub open spec fn edited_cell(w: &World, edits: Seq<(int, int, CellEdit)>, x: int, y: int) -> Cell
    decreases edits.len(),
{
    if edits.len() == 0 {
        w.stored(x, y)
    } else {
        let c = edited_cell(w, edits.drop_last(), x, y);
        let e = edits.last();
        if e.0 == x && e.1 == y {
            apply_edit(c, e.2)
        } else {
            c
        }
    }
}

/// The stored cells of `new` are those of `old` with `edits` applied, over the
/// same rectangle.
pub open spec fn cells_edited(old: &World, new: &World, edits: Seq<(int, int, CellEdit)>) -> bool {
    &&& new.wf()
    &&& new.min_x == old.min_x && new.min_y == old.min_y
    &&& new.max_x == old.max_x && new.max_y == old.max_y
    &&& forall|qx: int, qy: int| new.in_bounds(qx, qy) ==> #[trigger] new.stored(qx, qy) == edited_cell(old, edits, qx, qy)
}

/// `new` is `old` with `edits` applied to stored cells and nothing else changed.
pub open spec fn world_edited(old: &World, new: &World, edits: Seq<(int, int, CellEdit)>) -> bool {
    &&& cells_edited(old, new, edits)
    &&& new.expandos@ == old.expandos@
    &&& new.fountains@ == old.fountains@
}

/// Applying one more edit through a setter extends the edit list of the cells.
pub proof fn lemma_cells_edited_step(
    w0: &World,
    w1: &World,
    w2: &World,
    edits: Seq<(int, int, CellEdit)>,
    x: int,
    y: int,
    e: CellEdit,
)
    requires
        cells_edited(w0, w1, edits),
        only_cell_changed(w1, w2, x, y),
        w1.in_bounds(x, y),
        w2.stored(x, y) == apply_edit(w1.stored(x, y), e),
    ensures
        cells_edited(w0, w2, edits.push((x, y, e))),
{
    let ed = edits.push((x, y, e));
    assert(ed.drop_last() =~= edits);
    assert forall|qx: int, qy: int| w2.in_bounds(qx, qy) implies #[trigger] w2.stored(qx, qy)
        == edited_cell(w0, ed, qx, qy) by {
        assert(w1.stored(qx, qy) == edited_cell(w0, edits, qx, qy));
    }
}

/// Every edit targets a stored cell.
pub open spec fn edits_in_bounds(w: &World, edits: Seq<(int, int, CellEdit)>) -> bool {
    forall|i: int| 0 <= i < edits.len() ==> w.in_bounds(#[trigger] edits[i].0, edits[i].1)
}

/// The tile reported at `(x, y)` once `edits` are applied.
pub open spec fn edited_tile(o: &Options, w: &World, edits: Seq<(int, int, CellEdit)>, x: int, y: int) -> Tile {
    if w.in_bounds(x, y) && !o.hide_world_ib {
        edited_cell(w, edits, x, y).tile
    } else {
        tile_at(o, w, x, y)
    }
}

/// A world is its own edit by no edits.
pub proof fn lemma_world_edited_none(w: &World)
    requires
        w.wf(),
    ensures
        world_edited(w, w, Seq::empty()),
{
}

/// Applying one more edit through a setter extends the edit list.
pub proof fn lemma_world_edited_step(
    w0: &World,
    w1: &World,
    w2: &World,
    edits: Seq<(int, int, CellEdit)>,
    x: int,
    y: int,
    e: CellEdit,
)
    requires
        world_edited(w0, w1, edits),
        only_cell_changed(w1, w2, x, y),
        w1.in_bounds(x, y),
        w2.stored(x, y) == apply_edit(w1.stored(x, y), e),
    ensures
        world_edited(w0, w2, edits.push((x, y, e))),
{
    let ed = edits.push((x, y, e));
    assert(ed.drop_last() =~= edits);
    assert forall|qx: int, qy: int| w2.in_bounds(qx, qy) implies #[trigger] w2.stored(qx, qy)
        == edited_cell(w0, ed, qx, qy) by {
        assert(w1.stored(qx, qy) == edited_cell(w0, edits, qx, qy));
    }
}

/// Reads of an edited world go through the edits.
pub proof fn lemma_edited_tile(o: &Options, w0: &World, w1: &World, edits: Seq<(int, int, CellEdit)>, x: int, y: int)
    requires
        world_edited(w0, w1, edits),
    ensures
        tile_at(o, w1, x, y) == edited_tile(o, w0, edits, x, y),
{
    if w1.in_bounds(x, y) {
        assert(w1.stored(x, y) == edited_cell(w0, edits, x, y));
    }
}


impl World {
    /// The number of stored cells.
    pub open spec fn area(&self) -> int {
        (self.max_x - self.min_x + 1) * (self.max_y - self.min_y + 1)
    }
}

/// Distinct stored coordinates are at most as many as the stored cells.
pub proof fn lemma_distinct_cells_fit(w: &World, s: Seq<(i32, i32)>)
    requires
        w.wf(),
        s.no_duplicates(),
        forall|i: int| 0 <= i < s.len() ==> w.in_bounds(#[trigger] s[i].0 as int, s[i].1 as int),
    ensures
        s.len() <= w.area(),
{
    let width = w.max_x - w.min_x + 1;
    let height = w.max_y - w.min_y + 1;
    let mx = w.min_x as int;
    let my = w.min_y as int;
    let f = |p: (i32, i32)| (p.0 - mx) * height + (p.1 - my);
    let t = s.map_values(f);
    assert forall|i: int, j: int| 0 <= i < t.len() && 0 <= j < t.len() && i != j implies t[i] != t[j] by {
        let a = s[i].0 - mx;
        let b = s[i].1 - my;
        let c = s[j].0 - mx;
        let d = s[j].1 - my;
        assert(w.in_bounds(s[i].0 as int, s[i].1 as int));
        assert(w.in_bounds(s[j].0 as int, s[j].1 as int));
        assert(s[i] != s[j]);
        assert(t[i] == a * height + b);
        assert(t[j] == c * height + d);
        assert(a * height + b != c * height + d) by (nonlinear_arith)
            requires
                0 <= b < height,
                0 <= d < height,
                a != c || b != d,
        ;
    }
    assert(t.no_duplicates());
    t.unique_seq_to_set();
    let range = vstd::set_lib::set_int_range(0, width * height);
    assert forall|v: int| t.to_set().contains(v) implies range.contains(v) by {
        let i = choose|i: int| 0 <= i < t.len() && t[i] == v;
        let a = s[i].0 - mx;
        let b = s[i].1 - my;
        assert(w.in_bounds(s[i].0 as int, s[i].1 as int));
        assert(0 <= a * height + b < width * height) by (nonlinear_arith)
            requires
                0 <= a < width,
                0 <= b < height,
        ;
    }
    assert(width * height >= 0) by (nonlinear_arith)
        requires
            width >= 1,
            height >= 1,
    ;
    vstd::set_lib::lemma_int_range(0, width * height);
    vstd::set_lib::lemma_len_subset(t.to_set(), range);
}


/// Two worlds with the same rectangle and grid read the same everywhere.
pub proof fn lemma_same_grid_reads(o: &Options, a: &World, b: &World)
    requires
        a.tiles@ == b.tiles@,
        a.min_x == b.min_x && a.min_y == b.min_y && a.max_x == b.max_x && a.max_y == b.max_y,
    ensures
        forall|x: int, y: int| #[trigger] stuff_at(o, a, x, y) == stuff_at(o, b, x, y),
        forall|x: int, y: int| #[trigger] tile_at(o, a, x, y) == tile_at(o, b, x, y),
        forall|x: int, y: int| #[trigger] a.stored(x, y) == b.stored(x, y),
{
}


/// The pickup reported at `(x, y)` once `edits` are applied.
pub open spec fn edited_pickup(o: &Options, w: &World, edits: Seq<(int, int, CellEdit)>, x: int, y: int) -> Pickup {
    if w.in_bounds(x, y) && !o.hide_world_ib {
        edited_cell(w, edits, x, y).pickup
    } else {
        stuff_at(o, w, x, y).1
    }
}

/// Pickup reads of an edited world go through the edits.
pub proof fn lemma_edited_pickup(o: &Options, w0: &World, w1: &World, edits: Seq<(int, int, CellEdit)>, x: int, y: int)
    requires
        cells_edited(w0, w1, edits),
    ensures
        stuff_at(o, w1, x, y).1 == edited_pickup(o, w0, edits, x, y),
{
    if w1.in_bounds(x, y) {
        assert(w1.stored(x, y) == edited_cell(w0, edits, x, y));
    }
}

/// Whether the world can grow to include `(x, y)` within 32-bit coordinates.
pub open spec fn can_reach(w: &World, x: int, y: int) -> bool {
    &&& span_fits(if x < w.min_x { x } else { w.min_x as int }, if x > w.max_x { x } else { w.max_x as int })
    &&& span_fits(if y < w.min_y { y } else { w.min_y as int }, if y > w.max_y { y } else { w.max_y as int })
}

/// Grow the stored rectangle until it contains `(x, y)`, storing the generated
/// cell for every newly covered coordinate. No coordinate changes what it shows.
pub fn ensure_cell_in_world(world: &mut World, options: &Options, x: i32, y: i32)
    requires
        old(world).wf(),
        can_reach(old(world), x as int, y as int),
    ensures
        final(world).wf(),
        final(world).in_bounds(x as int, y as int),
        final(world).min_x == (if x < old(world).min_x { x } else { old(world).min_x }),
        final(world).max_x == (if x > old(world).max_x { x } else { old(world).max_x }),
        final(world).min_y == (if y < old(world).min_y { y } else { old(world).min_y }),
        final(world).max_y == (if y > old(world).max_y { y } else { old(world).max_y }),
        final(world).expandos@ == old(world).expandos@,
        final(world).fountains@ == old(world).fountains@,
        same_cells(options.seed, old(world), final(world)),
{
    let ghost w0 = *world;
    if x < world.min_x {
        prepend_columns(world, options, x);
    } else if x > world.max_x {
        append_columns(world, options, x);
    }
    let ghost w1 = *world;
    proof {
        lemma_same_cells(options.seed, &w0, &w1);
    }
    if y < world.min_y {
        prepend_rows(world, options, y);
    } else if y > world.max_y {
        append_rows(world, options, y);
    }
    proof {
        let w2 = *world;
        lemma_same_cells(options.seed, &w1, &w2);
    }
}

/// What `get_cell_stuff_at` reports for `(x, y)`: tile, pickup, tile value and visit count.
pub open spec fn stuff_at(o: &Options, w: &World, x: int, y: int) -> (Tile, Pickup, u32, u32) {
    if !w.in_bounds(x, y) {
        if o.hide_world_oob {
            (Tile::HideWorld, Pickup::Nothing, 0, 0)
        } else {
            let c = spec_generate_cell(o.seed, x, y);
            (c.tile, c.pickup, c.tile_value, 0)
        }
    } else if o.hide_world_ib {
        (Tile::HideWorld, Pickup::Nothing, 0, 0)
    } else {
        let c = w.stored(x, y);
        (c.tile, c.pickup, c.tile_value, c.visited)
    }
}

/// What `get_cell_tile_at` reports for `(x, y)`.
pub open spec fn tile_at(o: &Options, w: &World, x: int, y: int) -> Tile {
    stuff_at(o, w, x, y).0
}

/// The stored cell at grid indices `(ax, ay)`.
fn cell_at_index(world: &World, ax: usize, ay: usize) -> (r: Cell)
    requires
        world.wf(),
        ay < world.tiles@.len(),
        ax < world.max_x - world.min_x + 1,
    ensures
        r == world.tiles@[ay as int]@[ax as int],
{
    world.tiles[ay][ax]
}

/// Tile, pickup, tile value and visit count at world coordinate `(wx, wy)`; outside
/// the stored rectangle the generated cell (never visited), and `HideWorld` where the
/// options hide that part of the world.
pub fn get_cell_stuff_at(options: &Options, world: &World, wx: i32, wy: i32) -> (r: (Tile, Pickup, u32, u32))
    requires
        world.wf(),
    ensures
        r == stuff_at(options, world, wx as int, wy as int),
{
    if wx < world.min_x || wx > world.max_x || wy < world.min_y || wy > world.max_y {
        if options.hide_world_oob {
            return (Tile::HideWorld, Pickup::Nothing, 0, 0);
        }
        let cell = generate_cell(options, wx, wy);
        return (cell.tile, cell.pickup, cell.tile_value, 0);
    }
    if options.hide_world_ib {
        return (Tile::HideWorld, Pickup::Nothing, 0, 0);
    }
    let ax = -world.min_x + wx;
    let ay = -world.min_y + wy;
    let cell = cell_at_index(world, ax as usize, ay as usize);
    (cell.tile, cell.pickup, cell.tile_value, cell.visited)
}

/// The tile at `(wx, wy)` (see `get_cell_stuff_at`).
pub fn get_cell_tile_at(options: &Options, world: &World, wx: i32, wy: i32) -> (r: Tile)
    requires
        world.wf(),
    ensures
        r == tile_at(options, world, wx as int, wy as int),
{
    if wx < world.min_x || wx > world.max_x || wy < world.min_y || wy > world.max_y {
        if options.hide_world_oob {
            return Tile::HideWorld;
        }
        return generate_cell(options, wx, wy).tile;
    }
    if options.hide_world_ib {
        return Tile::HideWorld;
    }
    let ax = -world.min_x + wx;
    let ay = -world.min_y + wy;
    cell_at_index(world, ax as usize, ay as usize).tile
}

/// The pickup at `(wx, wy)`; the hiding options do not apply here.
pub fn get_cell_pickup_at(options: &Options, world: &World, wx: i32, wy: i32) -> (r: Pickup)
    requires
        world.wf(),
    ensures
        r == world.cell_at(options.seed, wx as int, wy as int).pickup,
{
    if wx < world.min_x || wx > world.max_x || wy < world.min_y || wy > world.max_y {
        return generate_cell(options, wx, wy).pickup;
    }
    let ax = -world.min_x + wx;
    let ay = -world.min_y + wy;
    cell_at_index(world, ax as usize, ay as usize).pickup
}

/// The tile value at `(wx, wy)`; zero where the options hide the world.
pub fn get_cell_value_at(options: &Options, world: &World, wx: i32, wy: i32) -> (r: u32)
    requires
        world.wf(),
    ensures
        r == (if !world.in_bounds(wx as int, wy as int) {
            if options.hide_world_oob { 0 } else { spec_generate_cell(options.seed, wx as int, wy as int).tile_value }
        } else if options.hide_world_ib {
            0
        } else {
            world.stored(wx as int, wy as int).tile_value
        }),
{
    if wx < world.min_x || wx > world.max_x || wy < world.min_y || wy > world.max_y {
        if options.hide_world_oob {
            return 0;
        }
        return generate_cell(options, wx, wy).tile_value;
    }
    if options.hide_world_ib {
        return 0;
    }
    let ax = -world.min_x + wx;
    let ay = -world.min_y + wy;
    cell_at_index(world, ax as usize, ay as usize).tile_value
}

/// Replace the stored cell at grid indices `(ax, ay)`.
fn put_cell(world: &mut World, ax: usize, ay: usize, cell: Cell)
    requires
        old(world).wf(),
        ay < old(world).tiles@.len(),
        ax < old(world).max_x - old(world).min_x + 1,
    ensures
        only_cell_changed(old(world), final(world), old(world).min_x + ax, old(world).min_y + ay),
        final(world).stored(old(world).min_x + ax, old(world).min_y + ay) == cell,
{
    let ghost old_w = *world;
    let removed = world.tiles.remove(ay);
    match removed {
        Some(mut row) => {
            let _ = row.remove(ax);
            row.insert(ax, cell);
            assert(row@ =~= old_w.tiles@[ay as int]@.update(ax as int, cell));
            world.tiles.insert(ay, row);
            assert(world.tiles@ =~= old_w.tiles@.update(ay as int, row));
        },
        None => {
            assert(false);
        },
    }
}

/// Checks that world coordinate `(wx, wy)` and its grid indices `(ax, ay)` lie in the
/// stored rectangle; the check itself is the precondition.
pub fn assert_arr_xy_in_world(world: &World, wx: i32, wy: i32, ax: usize, ay: usize)
    requires
        world.wf(),
        world.in_bounds(wx as int, wy as int),
        ax < world.max_x - world.min_x + 1,
        ay < world.max_y - world.min_y + 1,
{
}

/// Set the tile of the stored cell at `(wx, wy)`.
pub fn set_cell_tile_at(_options: &Options, world: &mut World, wx: i32, wy: i32, tile: Tile)
    requires
        old(world).wf(),
        old(world).in_bounds(wx as int, wy as int),
    ensures
        only_cell_changed(old(world), final(world), wx as int, wy as int),
        final(world).stored(wx as int, wy as int) == (Cell { tile, ..old(world).stored(wx as int, wy as int) }),
{
    let ax = (-world.min_x + wx) as usize;
    let ay = (-world.min_y + wy) as usize;
    let mut cell = cell_at_index(world, ax, ay);
    cell.tile = tile;
    put_cell(world, ax, ay, cell);
}

/// The tile value of the stored cell at `(wx, wy)`.
pub fn get_cell_tile_value_at(_options: &Options, world: &World, wx: i32, wy: i32) -> (r: u32)
    requires
        world.wf(),
        world.in_bounds(wx as int, wy as int),
    ensures
        r == world.stored(wx as int, wy as int).tile_value,
{
    let ax = (-world.min_x + wx) as usize;
    let ay = (-world.min_y + wy) as usize;
    cell_at_index(world, ax, ay).tile_value
}

/// Set the tile value of the stored cell at `(wx, wy)`.
pub fn set_cell_tile_value_at(_options: &Options, world: &mut World, wx: i32, wy: i32, value: u32)
    requires
        old(world).wf(),
        old(world).in_bounds(wx as int, wy as int),
    ensures
        only_cell_changed(old(world), final(world), wx as int, wy as int),
        final(world).stored(wx as int, wy as int) == (Cell { tile_value: value, ..old(world).stored(wx as int, wy as int) }),
{
    let ax = (-world.min_x + wx) as usize;
    let ay = (-world.min_y + wy) as usize;
    let mut cell = cell_at_index(world, ax, ay);
    cell.tile_value = value;
    put_cell(world, ax, ay, cell);
}

/// Set the pickup of the stored cell at `(wx, wy)`.
pub fn set_cell_pickup_at(_options: &Options, world: &mut World, wx: i32, wy: i32, pickup: Pickup)
    requires
        old(world).wf(),
        old(world).in_bounds(wx as int, wy as int),
    ensures
        only_cell_changed(old(world), final(world), wx as int, wy as int),
        final(world).stored(wx as int, wy as int) == (Cell { pickup, ..old(world).stored(wx as int, wy as int) }),
{
    let ax = (-world.min_x + wx) as usize;
    let ay = (-world.min_y + wy) as usize;
    let mut cell = cell_at_index(world, ax, ay);
    cell.pickup = pickup;
    put_cell(world, ax, ay, cell);
}

/// Set the pickup value of the stored cell at `(wx, wy)`.
pub fn set_cell_pickup_value_at(_options: &Options, world: &mut World, wx: i32, wy: i32, value: u32)
    requires
        old(world).wf(),
        old(world).in_bounds(wx as int, wy as int),
    ensures
        only_cell_changed(old(world), final(world), wx as int, wy as int),
        final(world).stored(wx as int, wy as int) == (Cell { pickup_value: value, ..old(world).stored(wx as int, wy as int) }),
{
    let ax = (-world.min_x + wx) as usize;
    let ay = (-world.min_y + wy) as usize;
    let mut cell = cell_at_index(world, ax, ay);
    cell.pickup_value = value;
    put_cell(world, ax, ay, cell);
}

/// Replace the whole stored cell at `(wx, wy)`.
pub fn set_cell_at(world: &mut World, wx: i32, wy: i32, cell: Cell)
    requires
        old(world).wf(),
        old(world).in_bounds(wx as int, wy as int),
    ensures
        only_cell_changed(old(world), final(world), wx as int, wy as int),
        final(world).stored(wx as int, wy as int) == cell,
{
    let ax = (-world.min_x + wx) as usize;
    let ay = (-world.min_y + wy) as usize;
    put_cell(world, ax, ay, cell);
}

/// The stored cell at `(wx, wy)`.
pub fn get_stored_cell(world: &World, wx: i32, wy: i32) -> (r: Cell)
    requires
        world.wf(),
        world.in_bounds(wx as int, wy as int),
    ensures
        r == world.stored(wx as int, wy as int),
{
    let ax = (-world.min_x + wx) as usize;
    let ay = (-world.min_y + wy) as usize;
    cell_at_index(world, ax, ay)
}

/// Width of the stored rectangle.
pub fn world_width(world: &World) -> (r: i32)
    requires
        world.wf(),
    ensures
        r == world.max_x - world.min_x + 1,
{
    -world.min_x + world.max_x + 1
}

/// Height of the stored rectangle.
pub fn world_height(world: &World) -> (r: i32)
    requires
        world.wf(),
    ensures
        r == world.max_y - world.min_y + 1,
{
    -world.min_y + world.max_y + 1
}

/// The grid position `(|min_x| + x, |min_y| + y)` of world coordinate `(x, y)`:
/// its column and row in `tiles` when it lies in the stored rectangle.
pub fn coord_to_index(x: i32, y: i32, world: &World) -> (r: (i32, i32))
    requires
        world.wf(),
        i32::MIN <= x - world.min_x <= i32::MAX,
        i32::MIN <= y - world.min_y <= i32::MAX,
    ensures
        r.0 as int == x - world.min_x,
        r.1 as int == y - world.min_y,
        world.in_bounds(x as int, y as int) ==> 0 <= r.0 < world.max_x - world.min_x + 1
            && 0 <= r.1 < world.max_y - world.min_y + 1,
{
    (x - world.min_x, y - world.min_y)
}

/// Whether `(x, y)` lies outside the inclusive rectangle `minx..=maxx` by `miny..=maxy`.
pub fn oob(x: i32, y: i32, minx: i32, miny: i32, maxx: i32, maxy: i32) -> (r: bool)
    ensures
        r == (x < minx || x > maxx || y < miny || y > maxy),
{
    x < minx || x > maxx || y < miny || y > maxy
}

/// Whether `(x, y)` lies inside the inclusive rectangle `min_x..=max_x` by `min_y..=max_y`.
pub fn bound_inc(x: i32, y: i32, min_x: i32, min_y: i32, max_x: i32, max_y: i32) -> (r: bool)
    ensures
        r == (x >= min_x && x <= max_x && y >= min_y && y <= max_y),
{
    x >= min_x && x <= max_x && y >= min_y && y <= max_y
}

/// A cell that was never visited.
pub fn create_unvisited_cell(tile: Tile, pickup: Pickup, tile_value: u32, pickup_value: u32) -> (r: Cell)
    ensures
        r == (Cell { tile, pickup, tile_value, pickup_value, visited: 0 }),
{
    Cell { tile, pickup, tile_value, pickup_value, visited: 0 }
}

/// A cell visited `visited` times.
pub fn create_visited_cell(tile: Tile, pickup: Pickup, tile_value: u32, pickup_value: u32, visited: u32) -> (r: Cell)
    ensures
        r == (Cell { tile, pickup, tile_value, pickup_value, visited }),
{
    Cell { tile, pickup, tile_value, pickup_value, visited }
}

/// The empty cell the miner starts on.
pub open spec fn origin_cell() -> Cell {
    Cell { tile: Tile::Empty, pickup: Pickup::Nothing, tile_value: 0, pickup_value: 0, visited: 0 }
}

/// A fresh world: the origin is an empty cell and the rest of the square from
/// `(-5, -5)` to `(5, 5)` is stored as generated. No expandos, no fountains.
pub fn generate_world(options: &Options) -> (r: World)
    ensures
        r.wf(),
        r.min_x == -5 && r.min_y == -5 && r.max_x == 5 && r.max_y == 5,
        r.expandos@.len() == 0,
        r.fountains@.len() == 0,
        r.cell_at(options.seed, 0, 0) == origin_cell(),
        forall|x: int, y: int|
            (x != 0 || y != 0) ==> #[trigger] r.cell_at(options.seed, x, y) == spec_generate_cell(options.seed, x, y),
{
    let mut xgrid: VecDeque<Cell> = VecDeque::new();
    xgrid.push_back(Cell { tile: Tile::Empty, pickup: Pickup::Nothing, tile_value: 0, pickup_value: 0, visited: 0 });
    let mut ygrid: Grid = VecDeque::new();
    ygrid.push_back(xgrid);
    let mut world = World {
        min_x: 0,
        min_y: 0,
        max_x: 0,
        max_y: 0,
        tiles: ygrid,
        expandos: Vec::new(),
        fountains: Vec::new(),
    };
    let ghost w0 = world;
    assert(w0.tiles@[0]@.len() == 1);
    ensure_cell_in_world(&mut world, options, -5, -5);
    ensure_cell_in_world(&mut world, options, 5, 5);
    assert forall|x: int, y: int| (x != 0 || y != 0) implies #[trigger] world.cell_at(options.seed, x, y)
        == spec_generate_cell(options.seed, x, y) by {
        assert(world.cell_at(options.seed, x, y) == w0.cell_at(options.seed, x, y));
    }
    assert(world.cell_at(options.seed, 0, 0) == w0.cell_at(options.seed, 0, 0));
    world
}

} // verus!
