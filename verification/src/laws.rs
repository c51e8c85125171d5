//! Properties that hold across several operations of the library.

use vstd::prelude::*;
use crate::movable::{Direction, spec_turn_lr, spec_turn_back, forward_delta, back_delta, left_delta, right_delta, offset};
use crate::slottable::{SlotKind, slot_symbol, is_slot_symbol, symbol_kind, slots_text, is_slot_layout_text};
use crate::tile::Tile;
use crate::pickup::Pickup;
use crate::cell::Cell;
use crate::options::Options;
use crate::world::{World, only_cell_changed, stuff_at, tile_at, spec_generate_cell, roll, round_even_to, round_to_f32_grid, expando_size, MIN_EXPANDO_SIZE, MAX_EXPANDO_SIZE};
use crate::trie::{trail_text, coord_octal, octal_text, octal_char};
use crate::inventory::{Inventory, spec_points, empty_inventory};
use crate::miner::{
    bumped_cell, inventory_after_pickup, has_pickup, windrone_craftable, sandrone_craftable, first_empty,
    spend_for_windrone, spend_for_sandrone, stone_count, rich_stone_count, take_up_to,
};
use crate::miner_move::{wall_strength, after_picks, castle_mark, filled, move_steps, rect_after_picks, picks};
use crate::movable::{drill_rect, drill_strength};
use crate::expando::{Rect, rect_of, grow_rect, expando_ticked, flooded, expando_fires, expando_spill};
use crate::drone_me::drone_moved;
use crate::world_tick::{world_ticked, expando_chain, fountain_chain};
use crate::drone_san::SandroneModel;
use crate::movable::Movable;

verus! {

/// A quarter turn to the left undoes a quarter turn to the right, and the other way round.
pub proof fn law_turns_undo_each_other(dir: Direction)
    ensures
        spec_turn_lr(spec_turn_lr(dir, true), false) == dir,
        spec_turn_lr(spec_turn_lr(dir, false), true) == dir,
{
}

/// Turning back twice faces the way it started; turning back is two quarter turns
/// in either direction; four quarter turns in one direction change nothing.
pub proof fn law_turning_around(dir: Direction, left: bool)
    ensures
        spec_turn_back(spec_turn_back(dir)) == dir,
        spec_turn_back(dir) == spec_turn_lr(spec_turn_lr(dir, left), left),
        spec_turn_lr(spec_turn_lr(spec_turn_lr(spec_turn_lr(dir, left), left), left), left) == dir,
{
}

/// The left, right and back neighbours are the forward neighbours after turning
/// left, right or back.
pub proof fn law_sides_are_turned_forward(dir: Direction)
    ensures
        left_delta(dir) == forward_delta(spec_turn_lr(dir, true)),
        right_delta(dir) == forward_delta(spec_turn_lr(dir, false)),
        back_delta(dir) == forward_delta(spec_turn_back(dir)),
{
}

/// Stepping back from the cell ahead returns to the start.
pub proof fn law_back_undoes_forward(x: i32, y: i32, dir: Direction)
    ensures
        offset(x, y, forward_delta(dir)).0 + back_delta(dir).0 == x,
        offset(x, y, forward_delta(dir)).1 + back_delta(dir).1 == y,
{
}

/// Every slot kind has a code letter, and the letter names that kind again.
pub proof fn law_slot_code_round_trip(kind: SlotKind)
    ensures
        is_slot_symbol(slot_symbol(kind)),
        symbol_kind(slot_symbol(kind)) == kind,
{
}

/// The short string of a 32-slot layout is a layout string, and reading it back
/// gives the same layout, slot by slot.
pub proof fn law_short_string_round_trip(slots: Seq<SlotKind>)
    requires
        slots.len() == 32,
    ensures
        is_slot_layout_text(slots_text(slots)),
        forall|i: int| 0 <= i < 32 ==> #[trigger] symbol_kind(slots_text(slots)[i]) == slots[i],
{
    assert forall|i: int| 0 <= i < 32 implies is_slot_symbol(#[trigger] slots_text(slots)[i]) by {
        law_slot_code_round_trip(slots[i]);
    }
    assert forall|i: int| 0 <= i < 32 implies #[trigger] symbol_kind(slots_text(slots)[i])
        == slots[i] by {
        law_slot_code_round_trip(slots[i]);
    }
}

/// Two layouts with the same short string are the same layout.
pub proof fn law_short_string_injective(a: Seq<SlotKind>, b: Seq<SlotKind>)
    requires
        slots_text(a) == slots_text(b),
    ensures
        a == b,
{
    assert(a.len() == slots_text(a).len());
    assert(b.len() == slots_text(b).len());
    assert forall|i: int| 0 <= i < a.len() implies a[i] == b[i] by {
        law_slot_code_round_trip(a[i]);
        law_slot_code_round_trip(b[i]);
        assert(slots_text(a)[i] == slot_symbol(a[i]));
        assert(slots_text(b)[i] == slot_symbol(b[i]));
    }
    assert(a =~= b);
}

/// After a cell's tile is set (see `set_cell_tile_at`), reading the tile there
/// gives the new tile unless the stored world is hidden, and every other
/// coordinate reads exactly as before.
pub proof fn law_tile_read_after_write(o: &Options, old: &World, new: &World, x: int, y: int, tile: Tile)
    requires
        old.wf(),
        old.in_bounds(x, y),
        only_cell_changed(old, new, x, y),
        new.stored(x, y) == (Cell { tile, ..old.stored(x, y) }),
    ensures
        !o.hide_world_ib ==> tile_at(o, new, x, y) == tile,
        forall|qx: int, qy: int| (qx != x || qy != y) ==> #[trigger] stuff_at(o, new, qx, qy) == stuff_at(o, old, qx, qy),
{
}

/// After a cell is replaced (see `set_cell_at` and the other setters), the world
/// shows the new cell there and the same cell as before everywhere else.
pub proof fn law_cell_read_after_write(seed: u64, old: &World, new: &World, x: int, y: int, cell: Cell)
    requires
        old.wf(),
        old.in_bounds(x, y),
        only_cell_changed(old, new, x, y),
        new.stored(x, y) == cell,
    ensures
        new.cell_at(seed, x, y) == cell,
        forall|qx: int, qy: int| (qx != x || qy != y) ==> #[trigger] new.cell_at(seed, qx, qy) == old.cell_at(seed, qx, qy),
{
}

/// A generated cell is empty (maybe holding energy or wind) or a wall of
/// strength 1 to 3 worth 0 to 2; an expando spills into 5 to 10 cells; nothing
/// generated has been visited, holds water or is a fountain.
pub proof fn law_generated_cells(seed: u64, x: int, y: int)
    ensures
        ({
            let c = spec_generate_cell(seed, x, y);
            &&& c.visited == 0
            &&& c.pickup != Pickup::Fountain && c.pickup != Pickup::Water
            &&& c.tile == Tile::Empty ==> c.tile_value == 0 && c.pickup_value == 0 && (c.pickup
                == Pickup::Nothing || c.pickup == Pickup::Energy || c.pickup == Pickup::Wind)
            &&& c.tile != Tile::Empty ==> (c.tile == Tile::Wall1 || c.tile == Tile::Wall2 || c.tile
                == Tile::Wall3) && c.tile_value <= 2
            &&& c.pickup == Pickup::Expando ==> MIN_EXPANDO_SIZE <= c.pickup_value
                <= MAX_EXPANDO_SIZE
        }),
{
    reveal(spec_generate_cell);
    let v = roll(seed, x, y, 5);
    assert(0 <= v < 0x100_0000);
    lemma_expando_size_bounds(v);
}

proof fn lemma_round_even_to_bounds(p: int, m: int)
    requires
        0 <= p,
        m == 2 || m == 4 || m == 8,
    ensures
        p - m <= round_even_to(p, m) <= p + m,
        round_even_to(p, m) % m == 0,
        0 <= round_even_to(p, m),
{
    if m == 2 {
        assert(p / 2 * 2 % 2 == 0);
    } else if m == 4 {
        assert(p / 4 * 4 % 4 == 0);
    } else {
        assert(p / 8 * 8 % 8 == 0);
    }
}

proof fn lemma_expando_size_bounds(v: int)
    requires
        0 <= v < 0x100_0000,
    ensures
        MIN_EXPANDO_SIZE <= expando_size(v) <= MAX_EXPANDO_SIZE,
{
    let p = (MAX_EXPANDO_SIZE - MIN_EXPANDO_SIZE) * v;
    assert(p == 5 * v);
    assert(0 <= p <= 5 * 0xff_ffff);
    if p >= 0x100_0000 {
        if p < 0x200_0000 {
            lemma_round_even_to_bounds(p, 2);
        } else if p < 0x400_0000 {
            lemma_round_even_to_bounds(p, 4);
        } else {
            lemma_round_even_to_bounds(p, 8);
            let g = round_even_to(p, 8);
            assert(g <= 5 * 0x100_0000) by {
                assert(g <= p + 8);
                assert(g % 8 == 0);
                assert(p + 8 < 5 * 0x100_0000 + 8);
            }
        }
    }
    let g = round_to_f32_grid(p);
    assert(0 <= g <= 5 * 0x100_0000);
    assert((g + 0x80_0000) / 0x100_0000 <= 5);
    assert((g + 0x80_0000) / 0x100_0000 >= 0);
}

/// Every character of a path's trail is a dash or an octal digit, so the trail
/// can be stored in the trie.
pub proof fn law_trail_in_alphabet(path: Seq<(i32, i32)>)
    ensures
        forall|i: int| 0 <= i < trail_text(path).len() ==> is_trail_char(#[trigger] trail_text(path)[i]),
    decreases path.len(),
{
    if path.len() > 0 {
        law_trail_in_alphabet(path.drop_last());
        lemma_octal_in_alphabet(path.last().0 as u32 as nat);
        lemma_octal_in_alphabet(path.last().1 as u32 as nat);
        let a = trail_text(path.drop_last());
        let b = coord_octal(path.last().0);
        let c = coord_octal(path.last().1);
        assert(trail_text(path) == a + b + seq!['-'] + c + seq!['-']);
        assert forall|i: int| 0 <= i < trail_text(path).len() implies is_trail_char(
            #[trigger] trail_text(path)[i],
        ) by {
            if i < a.len() {
                assert(trail_text(path)[i] == a[i]);
            } else if i < a.len() + b.len() {
                assert(trail_text(path)[i] == b[i - a.len()]);
            } else if i == a.len() + b.len() {
            } else if i < a.len() + b.len() + 1 + c.len() {
                assert(trail_text(path)[i] == c[i - a.len() - b.len() - 1]);
            }
        }
    }
}

/// A dash or an octal digit.
pub open spec fn is_trail_char(c: char) -> bool {
    c == '-' || ('0' <= c && c <= '7')
}

proof fn lemma_octal_in_alphabet(n: nat)
    ensures
        forall|i: int| 0 <= i < octal_text(n).len() ==> is_trail_char(#[trigger] octal_text(n)[i]),
    decreases n,
{
    if n >= 8 {
        lemma_octal_in_alphabet(n / 8);
        let a = octal_text(n / 8);
        assert forall|i: int| 0 <= i < octal_text(n).len() implies is_trail_char(
            #[trigger] octal_text(n)[i],
        ) by {
            if i < a.len() {
                assert(octal_text(n)[i] == a[i]);
            }
        }
    }
}


/// How many dashes `s` holds.
pub open spec fn dash_count(s: Seq<char>) -> nat
    decreases s.len(),
{
    if s.len() == 0 {
        0
    } else {
        dash_count(s.drop_last()) + if s.last() == '-' {
            1nat
        } else {
            0nat
        }
    }
}

/// No character of `s` is a dash.
pub open spec fn dash_free(s: Seq<char>) -> bool {
    forall|i: int| 0 <= i < s.len() ==> #[trigger] s[i] != '-'
}

proof fn lemma_dash_count_add(a: Seq<char>, b: Seq<char>)
    ensures
        dash_count(a + b) == dash_count(a) + dash_count(b),
    decreases b.len(),
{
    if b.len() > 0 {
        lemma_dash_count_add(a, b.drop_last());
        assert((a + b).drop_last() =~= a + b.drop_last());
    } else {
        assert(a + b =~= a);
    }
}

proof fn lemma_dash_free_count(s: Seq<char>)
    requires
        dash_free(s),
    ensures
        dash_count(s) == 0,
    decreases s.len(),
{
    if s.len() > 0 {
        assert(dash_free(s.drop_last())) by {
            assert forall|i: int| 0 <= i < s.drop_last().len() implies #[trigger] s.drop_last()[i]
                != '-' by {
                assert(s.drop_last()[i] == s[i]);
            }
        }
        lemma_dash_free_count(s.drop_last());
    }
}

proof fn lemma_octal_dash_free(n: nat)
    ensures
        dash_free(octal_text(n)),
        octal_text(n).len() >= 1,
    decreases n,
{
    lemma_octal_in_alphabet(n);
    if n >= 8 {
        lemma_octal_dash_free(n / 8);
    }
    assert forall|i: int| 0 <= i < octal_text(n).len() implies #[trigger] octal_text(n)[i] != '-' by {
        assert(is_trail_char(octal_text(n)[i]));
        if octal_text(n)[i] == '-' {
            if n < 8 {
                assert(octal_text(n)[i] == octal_char(n));
            } else {
                let a = octal_text(n / 8);
                if i < a.len() {
                    assert(octal_text(n)[i] == a[i]);
                } else {
                    assert(octal_text(n)[i] == octal_char(n % 8));
                }
            }
        }
    }
}

/// Every point of a path puts two dashes into its trail, one after each coordinate.
pub proof fn law_trail_has_two_dashes_per_point(path: Seq<(i32, i32)>)
    ensures
        dash_count(trail_text(path)) == 2 * path.len(),
    decreases path.len(),
{
    if path.len() > 0 {
        law_trail_has_two_dashes_per_point(path.drop_last());
        let t = trail_text(path.drop_last());
        let x = coord_octal(path.last().0);
        let y = coord_octal(path.last().1);
        let d = seq!['-'];
        lemma_octal_dash_free(path.last().0 as u32 as nat);
        lemma_octal_dash_free(path.last().1 as u32 as nat);
        lemma_dash_free_count(x);
        lemma_dash_free_count(y);
        assert(d.drop_last() =~= Seq::<char>::empty());
        assert(dash_count(d.drop_last()) == 0);
        assert(d.last() == '-');
        assert(dash_count(d) == 1);
        lemma_dash_count_add(t, x);
        lemma_dash_count_add(t + x, d);
        lemma_dash_count_add(t + x + d, y);
        lemma_dash_count_add(t + x + d + y, d);
    }
}

proof fn lemma_octal_char_injective(a: nat, b: nat)
    requires
        a < 8,
        b < 8,
        octal_char(a) == octal_char(b),
    ensures
        a == b,
{
    assert(octal_char(0) == '0' && octal_char(1) == '1' && octal_char(2) == '2' && octal_char(3) == '3');
    assert(octal_char(4) == '4' && octal_char(5) == '5' && octal_char(6) == '6' && octal_char(7) == '7');
}

proof fn lemma_octal_injective(n: nat, m: nat)
    requires
        octal_text(n) == octal_text(m),
    ensures
        n == m,
    decreases n,
{
    if n < 8 && m < 8 {
        assert(octal_text(n) == seq![octal_char(n)]);
        assert(octal_text(m) == seq![octal_char(m)]);
        assert(octal_text(n)[0] == octal_char(n));
        assert(octal_text(m)[0] == octal_char(m));
        lemma_octal_char_injective(n, m);
    } else if n < 8 {
        lemma_octal_dash_free(m / 8);
    } else if m < 8 {
        lemma_octal_dash_free(n / 8);
    } else {
        let tn = octal_text(n);
        let tm = octal_text(m);
        assert(tn.drop_last() =~= octal_text(n / 8));
        assert(tm.drop_last() =~= octal_text(m / 8));
        lemma_octal_injective(n / 8, m / 8);
        assert(tn.last() == octal_char(n % 8));
        assert(tm.last() == octal_char(m % 8));
        lemma_octal_char_injective(n % 8, m % 8);
        assert(n == 8 * (n / 8) + n % 8);
        assert(m == 8 * (m / 8) + m % 8);
    }
}

proof fn lemma_coord_octal_injective(a: i32, b: i32)
    requires
        coord_octal(a) == coord_octal(b),
    ensures
        a == b,
{
    lemma_octal_injective(a as u32 as nat, b as u32 as nat);
    assert((a as u32) == (b as u32) ==> a == b) by (bit_vector);
}

/// Two dash-free fields each closed by a dash, after parts that are empty or end
/// in a dash, can only be equal field by field.
proof fn lemma_split_last_field(a1: Seq<char>, y1: Seq<char>, a2: Seq<char>, y2: Seq<char>)
    requires
        a1 + y1 + seq!['-'] == a2 + y2 + seq!['-'],
        dash_free(y1),
        dash_free(y2),
        a1.len() > 0 ==> a1.last() == '-',
        a2.len() > 0 ==> a2.last() == '-',
    ensures
        a1 == a2,
        y1 == y2,
{
    let s1 = a1 + y1;
    let s2 = a2 + y2;
    assert(s1 =~= (a1 + y1 + seq!['-']).drop_last());
    assert(s2 =~= (a2 + y2 + seq!['-']).drop_last());
    assert(s1 == s2);
    if y1.len() < y2.len() {
        let k = a1.len() - 1;
        assert(s1[k] == a1.last());
        assert(s2[k] == y2[k - a2.len()]);
    } else if y2.len() < y1.len() {
        let k = a2.len() - 1;
        assert(s2[k] == a2.last());
        assert(s1[k] == y1[k - a1.len()]);
    }
    assert(a1 =~= s1.subrange(0, a1.len() as int));
    assert(a2 =~= s2.subrange(0, a2.len() as int));
    assert(y1 =~= s1.subrange(a1.len() as int, s1.len() as int));
    assert(y2 =~= s2.subrange(a2.len() as int, s2.len() as int));
}

/// Different paths give different trails: a trail determines its path.
pub proof fn law_trail_determines_path(p1: Seq<(i32, i32)>, p2: Seq<(i32, i32)>)
    requires
        trail_text(p1) == trail_text(p2),
    ensures
        p1 == p2,
    decreases p1.len(),
{
    if p1.len() == 0 && p2.len() == 0 {
        assert(p1 =~= p2);
    } else if p1.len() == 0 {
        assert(trail_text(p2).len() > 0);
    } else if p2.len() == 0 {
        assert(trail_text(p1).len() > 0);
    } else {
        let q1 = p1.drop_last();
        let q2 = p2.drop_last();
        let t1 = trail_text(q1);
        let t2 = trail_text(q2);
        let x1 = coord_octal(p1.last().0);
        let x2 = coord_octal(p2.last().0);
        let y1 = coord_octal(p1.last().1);
        let y2 = coord_octal(p2.last().1);
        lemma_octal_dash_free(p1.last().0 as u32 as nat);
        lemma_octal_dash_free(p2.last().0 as u32 as nat);
        lemma_octal_dash_free(p1.last().1 as u32 as nat);
        lemma_octal_dash_free(p2.last().1 as u32 as nat);
        let a1 = t1 + x1 + seq!['-'];
        let a2 = t2 + x2 + seq!['-'];
        lemma_split_last_field(a1, y1, a2, y2);
        if q1.len() > 0 {
            assert(t1.last() == '-');
        }
        if q2.len() > 0 {
            assert(t2.last() == '-');
        }
        lemma_split_last_field(t1, x1, t2, x2);
        law_trail_determines_path(q1, q2);
        lemma_coord_octal_injective(p1.last().0, p2.last().0);
        lemma_coord_octal_injective(p1.last().1, p2.last().1);
        assert(p1 =~= q1.push(p1.last()));
        assert(p2 =~= q2.push(p2.last()));
    }
}

/// A bump always chips a wall: what is left is weaker than before, and it
/// crumbles into empty ground exactly when the bump's force (one plus the
/// hammers) reaches the wall's strength. The pickup stays.
pub proof fn law_bump_weakens(c: Cell, strength: int, hammers: int)
    requires
        1 <= strength <= 4,
        hammers >= 0,
    ensures
        wall_strength(bumped_cell(c, strength, hammers).tile) < strength,
        (bumped_cell(c, strength, hammers).tile == Tile::Empty) == (strength <= 1 + hammers),
        bumped_cell(c, strength, hammers).pickup == c.pickup,
        bumped_cell(c, strength, hammers).pickup_value == c.pickup_value,
{
}

/// Once a cell was picked up, a second pickup there finds nothing.
pub proof fn law_pickup_empties(seed: u64, w: &World, ps: Seq<(int, int)>, x: int, y: int)
    ensures
        !has_pickup(after_picks(seed, w, ps.push((x, y)), x, y)),
{
    assert(ps.push((x, y)).drop_last() =~= ps);
}

/// Taking a pickup never lowers the score.
pub proof fn law_pickup_never_costs_points(inv: Inventory, c: Cell, primed: u32)
    requires
        (c.pickup == Pickup::Diamond || c.pickup == Pickup::Stone) ==> c.pickup_value + primed <= u32::MAX,
        inv.diamond_white < u32::MAX && inv.diamond_green < u32::MAX && inv.diamond_blue < u32::MAX
            && inv.diamond_yellow < u32::MAX,
        inv.stone_white < u32::MAX && inv.stone_green < u32::MAX && inv.stone_blue < u32::MAX
            && inv.stone_yellow < u32::MAX,
    ensures
        spec_points(inventory_after_pickup(inv, c, primed)) >= spec_points(inv),
{
}

/// Crafting a windrone costs five wood and exactly five stones, and nothing else.
/// The stones go cheapest first: no blue stone is taken while a white one is
/// left, no green one while a white or blue one is left, and no yellow one while
/// any other is left.
pub proof fn law_windrone_costs(inv: Inventory)
    requires
        inv.wood > 5,
        stone_count(inv) > 5,
    ensures
        spend_for_windrone(inv).wood == inv.wood - 5,
        stone_count(spend_for_windrone(inv)) == stone_count(inv) - 5,
        spend_for_windrone(inv).water == inv.water,
        spend_for_windrone(inv).wind == inv.wind,
        spend_for_windrone(inv).sand == inv.sand,
        spend_for_windrone(inv).stone_white <= inv.stone_white,
        spend_for_windrone(inv).stone_blue <= inv.stone_blue,
        spend_for_windrone(inv).stone_green <= inv.stone_green,
        spend_for_windrone(inv).stone_yellow <= inv.stone_yellow,
        spend_for_windrone(inv).stone_blue < inv.stone_blue ==> spend_for_windrone(inv).stone_white == 0,
        spend_for_windrone(inv).stone_green < inv.stone_green ==> spend_for_windrone(inv).stone_white == 0
            && spend_for_windrone(inv).stone_blue == 0,
        spend_for_windrone(inv).stone_yellow < inv.stone_yellow ==> spend_for_windrone(inv).stone_white == 0
            && spend_for_windrone(inv).stone_blue == 0 && spend_for_windrone(inv).stone_green == 0,
{
}

/// Crafting a sandrone costs five wood, ten water, and five stones less the white
/// stones held (at most five), which are not spent; only non-white stones go,
/// blue first, then green, then yellow.
pub proof fn law_sandrone_costs(inv: Inventory)
    requires
        inv.wood > 5,
        inv.water > 10,
        rich_stone_count(inv) > 5,
    ensures
        spend_for_sandrone(inv).wood == inv.wood - 5,
        spend_for_sandrone(inv).water == inv.water - 10,
        spend_for_sandrone(inv).stone_white == inv.stone_white,
        rich_stone_count(spend_for_sandrone(inv)) == rich_stone_count(inv) - (5 - take_up_to(inv.stone_white, 5)),
        spend_for_sandrone(inv).stone_blue <= inv.stone_blue,
        spend_for_sandrone(inv).stone_green <= inv.stone_green,
        spend_for_sandrone(inv).stone_yellow <= inv.stone_yellow,
        spend_for_sandrone(inv).stone_green < inv.stone_green ==> spend_for_sandrone(inv).stone_blue == 0,
        spend_for_sandrone(inv).stone_yellow < inv.stone_yellow ==> spend_for_sandrone(inv).stone_blue == 0
            && spend_for_sandrone(inv).stone_green == 0,
{
}

proof fn lemma_first_empty_found(kinds: Seq<SlotKind>)
    requires
        kinds.contains(SlotKind::Emptiness),
    ensures
        0 <= first_empty(kinds) < kinds.len(),
        kinds[first_empty(kinds)] == SlotKind::Emptiness,
    decreases kinds.len(),
{
    if kinds[0] != SlotKind::Emptiness {
        let i = choose|i: int| 0 <= i < kinds.len() && kinds[i] == SlotKind::Emptiness;
        assert(kinds.drop_first()[i - 1] == SlotKind::Emptiness);
        lemma_first_empty_found(kinds.drop_first());
    }
}

/// A miner carries at most one drone of each kind: once a windrone (sandrone) was
/// put in the first empty slot, no other can be crafted, whatever the inventory.
pub proof fn law_one_drone_of_a_kind(kinds: Seq<SlotKind>, inv: Inventory, inv2: Inventory)
    requires
        kinds.contains(SlotKind::Emptiness),
    ensures
        !windrone_craftable(kinds.update(first_empty(kinds), SlotKind::Windrone), inv2),
        !sandrone_craftable(kinds.update(first_empty(kinds), SlotKind::Sandrone), inv2),
{
    lemma_first_empty_found(kinds);
    let i = first_empty(kinds);
    assert(kinds.update(i, SlotKind::Windrone)[i] == SlotKind::Windrone);
    assert(kinds.update(i, SlotKind::Sandrone)[i] == SlotKind::Sandrone);
}


/// Walking over an expando never removes it: whatever is picked up along the
/// way, a cell holding an expando still holds it.
pub proof fn law_expandos_stay(seed: u64, w: &World, ps: Seq<(int, int)>, x: int, y: int)
    requires
        w.cell_at(seed, x, y).pickup == Pickup::Expando,
    ensures
        after_picks(seed, w, ps, x, y).pickup == Pickup::Expando,
    decreases ps.len(),
{
    if ps.len() > 0 {
        law_expandos_stay(seed, w, ps.drop_last(), x, y);
    }
}

/// Filling the castle keeps a way out: the miner standing on the cell it
/// remembers as the castle's last open exit never fills it, neither when it
/// turns at the castle edge nor when it turns at a push cell and stays there.
pub proof fn law_castle_keeps_its_exit(o: &Options, w: &World, w2: &World, m: Movable, s: SandroneModel, s2: SandroneModel,
    fill: bool, px: int, py: int)
    requires
        m.x == s.last_empty_castle_exit_x && m.y == s.last_empty_castle_exit_y,
        filled(o.seed, w, w2, s, s2, fill, px, py, m.x as int, m.y as int),
        px == m.x && py == m.y,
    ensures
        castle_mark(o, w, m, s) != 1,
        w2.cell_at(o.seed, m.x as int, m.y as int) == w.cell_at(o.seed, m.x as int, m.y as int),
{
}


/// `a` lies inside `b`.
pub open spec fn rect_within(a: Rect, b: Rect) -> bool {
    b.0 <= a.0 && a.2 <= b.2 && b.1 <= a.1 && a.3 <= b.3
}

proof fn lemma_drill_rect_grows(seed: u64, w: &World, r: Rect, rem: int, str: int, px: int, py: int, dx: int, dy: int)
    ensures
        rect_within(r, drill_rect(seed, w, r, rem, str, px, py, dx, dy)),
    decreases str,
{
    if rem > 0 && str > 0 {
        let stop = crate::movable::drill_cell(w.cell_at(seed, px, py), str).1;
        lemma_drill_rect_grows(seed, w, grow_rect(r, px, py), if stop { 0 } else { rem - 1 }, str - 1, px + dx, py + dy, dx, dy);
    }
}

proof fn lemma_picks_rect_grows(r: Rect, ps: Seq<(int, int)>)
    ensures
        rect_within(r, rect_after_picks(r, ps)),
    decreases ps.len(),
{
    if ps.len() > 0 {
        lemma_picks_rect_grows(r, ps.drop_last());
    }
}

/// The stored world never shrinks: whatever the miner does in a move, every
/// cell stored before is stored after.
pub proof fn law_moves_never_shrink_the_world(o: &Options, w0: &World, w1: &World, w2: &World, w3: &World, w4: &World,
    m0: Movable, m4: Movable, inv0: Inventory, inv4: Inventory, s0: SandroneModel, s4: SandroneModel,
    ticks: u32, primed: u32, hammers: i32, drills: i32, nths: Seq<i32>,
    bumped: bool, castle_turn: bool, finished: bool, boring: bool, energy: int, points: int, hits: Seq<bool>)
    requires
        move_steps(o, w0, w1, w2, w3, w4, m0, m4, inv0, inv4, s0, s4, ticks, primed, hammers, drills, nths,
            bumped, castle_turn, finished, boring, energy, points, hits),
    ensures
        rect_within(rect_of(w0), rect_of(w4)),
{
    let d = crate::movable::forward_delta(m0.dir);
    let nx = m0.x + d.0;
    let ny = m0.y + d.1;
    let tile = w2.cell_at(o.seed, nx, ny).tile;
    if !castle_turn && wall_strength(tile) > 0 && drills > 0 {
        lemma_drill_rect_grows(o.seed, w2, rect_of(w2), drills as int, drill_strength(hammers), nx + d.0, ny + d.1, d.0, d.1);
    }
    if !castle_turn && wall_strength(tile) == 0 && tile != Tile::Push && tile != Tile::Impassible {
        lemma_picks_rect_grows(rect_of(w2), crate::miner_move::picks(m0, nx, ny, nths, nths.len() as int));
    }
}

/// Nor does a drone's move shrink it.
pub proof fn law_drone_moves_never_shrink_the_world(o: &Options, w: &World, w1: &World, w2: &World, m: Movable, m2: Movable,
    inv: Inventory, inv2: Inventory, bumped: bool, energy: bool)
    requires
        drone_moved(o, w, w1, w2, m, m2, inv, inv2, bumped, energy),
    ensures
        rect_within(rect_of(w), rect_of(w2)),
{
}


/// `w2` holds the same expandos and fountains as `w`, at the same places, the
/// fountains with the same pools.
pub open spec fn fluids_kept(w: World, w2: World) -> bool {
    &&& w2.expandos@.len() == w.expandos@.len()
    &&& w2.fountains@.len() == w.fountains@.len()
    &&& forall|i: int| 0 <= i < w.expandos@.len() ==> (#[trigger] w2.expandos@[i]).x == w.expandos@[i].x
        && w2.expandos@[i].y == w.expandos@[i].y
    &&& forall|i: int| 0 <= i < w.fountains@.len() ==> (#[trigger] w2.fountains@[i]).x == w.fountains@[i].x
        && w2.fountains@[i].y == w.fountains@[i].y && w2.fountains@[i].water_tiles@ == w.fountains@[i].water_tiles@
}

proof fn lemma_expando_chain_keeps(o: &Options, a: Seq<World>, n: int, k: int, j: int)
    requires
        expando_chain(o, a, n, k),
        n == a[0].expandos@.len(),
        k <= n,
        0 <= j <= k,
    ensures
        fluids_kept(a[0], a[j]),
    decreases j,
{
    if j > 0 {
        lemma_expando_chain_keeps(o, a, n, k, j - 1);
        let jj = j - 1;
        assert(crate::expando::expando_ticked(o, &a[jj], &a[jj + 1], n - 1 - jj));
    }
}

proof fn lemma_fountain_chain_keeps(o: &Options, b: Seq<World>, n: int, k: int, j: int)
    requires
        fountain_chain(o, b, n, k),
        n == b[0].fountains@.len(),
        k <= n,
        0 <= j <= k,
    ensures
        fluids_kept(b[0], b[j]),
    decreases j,
{
    if j > 0 {
        lemma_fountain_chain_keeps(o, b, n, k, j - 1);
        let jj = j - 1;
        assert(crate::fountain::fountain_ticked(o, &b[jj], &b[jj + 1], n - 1 - jj));
    }
}

/// A world tick neither adds nor removes expandos or fountains: every one
/// stays where it is, and every fountain keeps its pool.
pub proof fn law_world_tick_keeps_its_fluids(o: &Options, w: World, w2: World, a: Seq<World>, b: Seq<World>)
    requires
        world_ticked(o, w, w2, a, b),
    ensures
        fluids_kept(w, w2),
{
    let ne = w.expandos@.len() as int;
    let nf = w.fountains@.len() as int;
    lemma_expando_chain_keeps(o, a, ne, ne, ne);
    lemma_fountain_chain_keeps(o, b, nf, nf, nf);
}


/// A spilling expando floods the first cells its spill finds, at most
/// `volume + 1` of them. When the spill finds more than its volume, it is spent:
/// its volume drops to zero and it never spills again; otherwise it keeps its
/// volume. A tick that does not spill only ages the expando.
pub proof fn law_expando_spends_its_volume(o: &Options, w: &World, w2: &World, i: int)
    requires
        0 <= i < w.expandos@.len(),
        expando_ticked(o, w, w2, i),
    ensures
        flooded(o, w, w.expandos@[i]).len() <= w.expandos@[i].volume + 1,
        flooded(o, w, w.expandos@[i]).len() == w.expandos@[i].volume + 1 ==> w2.expandos@[i].volume == 0,
        flooded(o, w, w.expandos@[i]).len() <= w.expandos@[i].volume ==> w2.expandos@[i].volume
            == w.expandos@[i].volume,
        w2.expandos@[i].volume == 0 ==> !expando_fires(w2.expandos@[i]),
        w2.expandos@[i].x == w.expandos@[i].x && w2.expandos@[i].y == w.expandos@[i].y,
        ({
            let e = w.expandos@[i];
            let found = expando_spill(o, w, e).1;
            let f = flooded(o, w, e);
            &&& !expando_fires(e) ==> f.len() == 0 && w2.expandos@[i].volume == e.volume
                && w2.expandos@[i].ticks_since_last_update == (e.ticks_since_last_update + 1) as u32
            &&& expando_fires(e) ==> w2.expandos@[i].ticks_since_last_update == 0
            &&& expando_fires(e) && found.len() > e.volume ==> f.len() == e.volume + 1 && w2.expandos@[i].volume == 0
            &&& expando_fires(e) && found.len() <= e.volume ==> f.len() == found.len()
            &&& expando_fires(e) ==> f == found.take(f.len() as int)
        }),
{
    let e = w.expandos@[i];
    let found = expando_spill(o, w, e).1;
    if expando_fires(e) {
        if found.len() > e.volume {
            assert(found.take(e.volume + 1).take(e.volume + 1) =~= found.take(e.volume + 1));
        } else {
            assert(found.take(found.len() as int) =~= found);
        }
    }
}

/// Where the magnets pick up as the miner `m` steps to `(nx, ny)`. With the
/// heading `f` and `l` its quarter turn to the left, the magnet of rank 0 takes
/// the cell behind the one the miner left, rank 1 the one to its left, rank 2
/// to its right, rank 3 the front-left one, rank 4 the front-right one, rank 5
/// the back-left one and rank 6 the back-right one; other ranks take nothing.
pub proof fn law_magnet_ranks(m: Movable, nx: int, ny: int, nths: Seq<i32>, k: int)
    requires
        0 <= k < nths.len(),
    ensures
        ({
            let f = forward_delta(m.dir);
            let l = (f.1, -f.0);
            let before = picks(m, nx, ny, nths, k);
            let after = picks(m, nx, ny, nths, k + 1);
            &&& nths[k] == 0 ==> after == before.push((m.x - f.0, m.y - f.1))
            &&& nths[k] == 1 ==> after == before.push((m.x + l.0, m.y + l.1))
            &&& nths[k] == 2 ==> after == before.push((m.x - l.0, m.y - l.1))
            &&& nths[k] == 3 ==> after == before.push((m.x + f.0 + l.0, m.y + f.1 + l.1))
            &&& nths[k] == 4 ==> after == before.push((m.x + f.0 - l.0, m.y + f.1 - l.1))
            &&& nths[k] == 5 ==> after == before.push((m.x - f.0 + l.0, m.y - f.1 + l.1))
            &&& nths[k] == 6 ==> after == before.push((m.x - f.0 - l.0, m.y - f.1 - l.1))
            &&& (nths[k] < 0 || nths[k] > 6) ==> after == before
        }),
{
}

/// Each item scores a fixed amount: a white stone 1, a blue one 5, a green one
/// nothing, a yellow one 60 (10 and 50), a white diamond 100, a blue one 250, a
/// green one 500 and a yellow one 1000; nothing else counts, and an empty
/// inventory scores nothing.
pub proof fn law_points_per_item(inv: Inventory)
    ensures
        spec_points(empty_inventory()) == 0,
        inv.stone_white < u32::MAX ==> spec_points(Inventory { stone_white: (inv.stone_white + 1) as u32, ..inv })
            == spec_points(inv) + 1,
        inv.stone_blue < u32::MAX ==> spec_points(Inventory { stone_blue: (inv.stone_blue + 1) as u32, ..inv })
            == spec_points(inv) + 5,
        inv.stone_green < u32::MAX ==> spec_points(Inventory { stone_green: (inv.stone_green + 1) as u32, ..inv })
            == spec_points(inv),
        inv.stone_yellow < u32::MAX ==> spec_points(Inventory { stone_yellow: (inv.stone_yellow + 1) as u32, ..inv })
            == spec_points(inv) + 60,
        inv.diamond_white < u32::MAX ==> spec_points(Inventory { diamond_white: (inv.diamond_white + 1) as u32, ..inv })
            == spec_points(inv) + 100,
        inv.diamond_blue < u32::MAX ==> spec_points(Inventory { diamond_blue: (inv.diamond_blue + 1) as u32, ..inv })
            == spec_points(inv) + 250,
        inv.diamond_green < u32::MAX ==> spec_points(Inventory { diamond_green: (inv.diamond_green + 1) as u32, ..inv })
            == spec_points(inv) + 500,
        inv.diamond_yellow < u32::MAX ==> spec_points(Inventory { diamond_yellow: (inv.diamond_yellow + 1) as u32, ..inv })
            == spec_points(inv) + 1000,
        spec_points(Inventory { energy: 0, water: 0, wind: 0, wood: 0, sand: 0, food: 0, ..inv }) == spec_points(inv),
{
}

/// How a cell's rolls decide what is generated there, each roll `v` standing
/// for the float `v / 2^24`: the first roll gives wind below 0.01 and energy
/// below 0.05; else the second roll gives a wall below 0.4 and empty ground
/// otherwise. A wall is of strength 3 below 0.1, 2 below 0.4, else 1 (third
/// roll); worth 2 below 0.1, 1 below 0.4, else 0 (fourth roll); and hides a
/// diamond below 0.1, wood below 0.4, an expando below 0.41 and a stone
/// otherwise (fifth roll).
pub proof fn law_generated_cell_rolls(seed: u64, x: int, y: int)
    ensures
        ({
            let c = spec_generate_cell(seed, x, y);
            let energy = roll(seed, x, y, 0);
            let wall = roll(seed, x, y, 1);
            let kind = roll(seed, x, y, 2);
            let value = roll(seed, x, y, 3);
            let reward = roll(seed, x, y, 4);
            let is_wall = energy >= 838861 && wall < 6710887;
            &&& energy < 167773 ==> c.tile == Tile::Empty && c.pickup == Pickup::Wind
            &&& 167773 <= energy < 838861 ==> c.tile == Tile::Empty && c.pickup == Pickup::Energy
            &&& energy >= 838861 && wall >= 6710887 ==> c.tile == Tile::Empty && c.pickup == Pickup::Nothing
            &&& is_wall ==> (c.tile == Tile::Wall3 <==> kind < 1677722)
            &&& is_wall ==> (c.tile == Tile::Wall2 <==> 1677722 <= kind < 6710887)
            &&& is_wall ==> (c.tile == Tile::Wall1 <==> kind >= 6710887)
            &&& is_wall ==> (c.tile_value == 2 <==> value < 1677722)
            &&& is_wall ==> (c.tile_value == 1 <==> 1677722 <= value < 6710887)
            &&& is_wall ==> (c.tile_value == 0 <==> value >= 6710887)
            &&& is_wall ==> (c.pickup == Pickup::Diamond <==> reward < 1677722)
            &&& is_wall ==> (c.pickup == Pickup::Wood <==> 1677722 <= reward < 6710887)
            &&& is_wall ==> (c.pickup == Pickup::Expando <==> 6710887 <= reward < 6878659)
            &&& is_wall ==> (c.pickup == Pickup::Stone <==> reward >= 6878659)
            &&& is_wall && c.pickup != Pickup::Expando ==> c.pickup_value == c.tile_value
            &&& is_wall && c.pickup == Pickup::Expando ==> c.pickup_value == expando_size(roll(seed, x, y, 5))
        }),
{
    reveal(spec_generate_cell);
}

} // verus!
