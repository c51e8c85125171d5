//! The kinds of items a miner carries in its 32 slots, and the one-letter
//! code by which a miner's slot layout is written down.

use vstd::prelude::*;
use vstd::string::*;

verus! {

/// Number of slot kinds: the per-kind counter has one entry for each.
pub const SLOT_COUNT: i32 = 12;

/// An item kind that can sit in a miner's slot.
#[derive(Debug, Clone, Copy, PartialEq, Eq, Structural)]
pub enum SlotKind {
    BrokenGps,
    Windrone,
    Drill,
    DroneLauncher,
    Emptiness,
    EnergyCell,
    Hammer,
    JacksCompass,
    Magnet,
    PurityScanner,
    RandomStart,
    Sandrone,
}

/// The position of a kind in the enumeration (its counter index).
pub open spec fn spec_slot_kind_index(kind: SlotKind) -> int {
    match kind {
        SlotKind::BrokenGps => 0,
        SlotKind::Windrone => 1,
        SlotKind::Drill => 2,
        SlotKind::DroneLauncher => 3,
        SlotKind::Emptiness => 4,
        SlotKind::EnergyCell => 5,
        SlotKind::Hammer => 6,
        SlotKind::JacksCompass => 7,
        SlotKind::Magnet => 8,
        SlotKind::PurityScanner => 9,
        SlotKind::RandomStart => 10,
        SlotKind::Sandrone => 11,
    }
}

/// The one-letter code of a slot kind.
pub open spec fn slot_symbol(kind: SlotKind) -> char {
    match kind {
        SlotKind::BrokenGps => 'G',
        SlotKind::Drill => 'd',
        SlotKind::DroneLauncher => 'D',
        SlotKind::Emptiness => '.',
        SlotKind::EnergyCell => 'E',
        SlotKind::Hammer => 'h',
        SlotKind::JacksCompass => 'J',
        SlotKind::Magnet => 'm',
        SlotKind::PurityScanner => 'P',
        SlotKind::RandomStart => '?',
        SlotKind::Sandrone => 'H',
        SlotKind::Windrone => 'B',
    }
}

/// Whether `c` is the code of some slot kind.
pub open spec fn is_slot_symbol(c: char) -> bool {
    c == 'G' || c == 'd' || c == 'D' || c == '.' || c == 'E' || c == 'h' || c == 'J' || c == 'm'
        || c == 'P' || c == '?' || c == 'H' || c == 'B'
}

/// The slot kind whose code is `c`.
pub open spec fn symbol_kind(c: char) -> SlotKind
    recommends
        is_slot_symbol(c),
{
    if c == 'G' {
        SlotKind::BrokenGps
    } else if c == 'd' {
        SlotKind::Drill
    } else if c == 'D' {
        SlotKind::DroneLauncher
    } else if c == '.' {
        SlotKind::Emptiness
    } else if c == 'E' {
        SlotKind::EnergyCell
    } else if c == 'h' {
        SlotKind::Hammer
    } else if c == 'J' {
        SlotKind::JacksCompass
    } else if c == 'm' {
        SlotKind::Magnet
    } else if c == 'P' {
        SlotKind::PurityScanner
    } else if c == '?' {
        SlotKind::RandomStart
    } else if c == 'H' {
        SlotKind::Sandrone
    } else {
        SlotKind::Windrone
    }
}

/// The short string of a slot layout: one code letter per slot, in slot order.
pub open spec fn slots_text(slots: Seq<SlotKind>) -> Seq<char> {
    slots.map_values(|k: SlotKind| slot_symbol(k))
}

/// A short string that names a full 32-slot layout.
pub open spec fn is_slot_layout_text(s: Seq<char>) -> bool {
    s.len() == 32 && forall|i: int| 0 <= i < 32 ==> is_slot_symbol(#[trigger] s[i])
}

/// Counter index of a slot kind.
pub fn slot_kind_index(kind: SlotKind) -> (r: usize)
    ensures
        r as int == spec_slot_kind_index(kind),
{
    match kind {
        SlotKind::BrokenGps => 0,
        SlotKind::Windrone => 1,
        SlotKind::Drill => 2,
        SlotKind::DroneLauncher => 3,
        SlotKind::Emptiness => 4,
        SlotKind::EnergyCell => 5,
        SlotKind::Hammer => 6,
        SlotKind::JacksCompass => 7,
        SlotKind::Magnet => 8,
        SlotKind::PurityScanner => 9,
        SlotKind::RandomStart => 10,
        SlotKind::Sandrone => 11,
    }
}

/// The number of slot kinds (`SLOT_COUNT`), whatever the kind.
pub fn assert_size(x: &SlotKind) -> (r: i32)
    ensures
        r == SLOT_COUNT,
{
    match x {
        SlotKind::BrokenGps | SlotKind::Drill | SlotKind::DroneLauncher | SlotKind::Emptiness
        | SlotKind::EnergyCell | SlotKind::Hammer | SlotKind::JacksCompass | SlotKind::Magnet
        | SlotKind::PurityScanner | SlotKind::RandomStart | SlotKind::Sandrone
        | SlotKind::Windrone => SLOT_COUNT,
    }
}

/// The one-letter code of a slot kind, as a string.
pub fn slot_type_to_symbol(slot: &SlotKind) -> (r: String)
    ensures
        r@ == seq![slot_symbol(*slot)],
{
    let r = match slot {
        SlotKind::BrokenGps => String::from_str("G"),
        SlotKind::Drill => String::from_str("d"),
        SlotKind::DroneLauncher => String::from_str("D"),
        SlotKind::Emptiness => String::from_str("."),
        SlotKind::EnergyCell => String::from_str("E"),
        SlotKind::Hammer => String::from_str("h"),
        SlotKind::JacksCompass => String::from_str("J"),
        SlotKind::Magnet => String::from_str("m"),
        SlotKind::PurityScanner => String::from_str("P"),
        SlotKind::RandomStart => String::from_str("?"),
        SlotKind::Sandrone => String::from_str("H"),
        SlotKind::Windrone => String::from_str("B"),
    };
    proof {
        reveal_strlit("G");
        reveal_strlit("d");
        reveal_strlit("D");
        reveal_strlit(".");
        reveal_strlit("E");
        reveal_strlit("h");
        reveal_strlit("J");
        reveal_strlit("m");
        reveal_strlit("P");
        reveal_strlit("?");
        reveal_strlit("H");
        reveal_strlit("B");
    }
    assert(r@ =~= seq![slot_symbol(*slot)]);
    r
}

/// The slot kind written as `sym`. Any other character is refused.
pub fn symbol_to_slot_type(sym: char) -> (r: SlotKind)
    requires
        is_slot_symbol(sym),
    ensures
        r == symbol_kind(sym),
        slot_symbol(r) == sym,
{
    match sym {
        'G' => SlotKind::BrokenGps,
        'd' => SlotKind::Drill,
        'D' => SlotKind::DroneLauncher,
        '.' => SlotKind::Emptiness,
        'E' => SlotKind::EnergyCell,
        'h' => SlotKind::Hammer,
        'J' => SlotKind::JacksCompass,
        'm' => SlotKind::Magnet,
        'P' => SlotKind::PurityScanner,
        '?' => SlotKind::RandomStart,
        'H' => SlotKind::Sandrone,
        _ => SlotKind::Windrone,
    }
}

/// A zeroed counter with one entry per slot kind.
pub fn create_slot_kind_counter() -> (r: Vec<i32>)
    ensures
        r@.len() == SLOT_COUNT,
        forall|i: int| 0 <= i < r@.len() ==> r@[i] == 0,
{
    vec![0; 12]
}

/// The short string of a slot layout.
pub fn slots_to_short_string(slots: [SlotKind; 32]) -> (r: String)
    ensures
        r@ == slots_text(slots@),
{
    let mut r = String::new();
    let mut i: usize = 0;
    while i < 32
        invariant
            i <= 32,
            r@ == slots_text(slots@.take(i as int)),
        decreases 32 - i,
    {
        let sym = slot_type_to_symbol(&slots[i]);
        r.append(sym.as_str());
        assert(slots@.take(i as int + 1) =~= slots@.take(i as int).push(slots@[i as int]));
        i = i + 1;
    }
    assert(slots@.take(32) =~= slots@);
    r
}

/// The slot layout written in a short string of 32 code letters.
pub fn short_string_to_slots(short_string: String) -> (r: [SlotKind; 32])
    requires
        is_slot_layout_text(short_string@),
    ensures
        forall|i: int| 0 <= i < 32 ==> #[trigger] r@[i] == symbol_kind(short_string@[i]),
        slots_text(r@) == short_string@,
{
    assert(short_string.is_ascii()) by {
        assert forall|i: int| 0 <= i < short_string@.len() implies '\0' <= #[trigger] short_string@[i]
            <= '\u{7f}' by {
            assert(is_slot_symbol(short_string@[i]));
        }
    }
    let s = short_string.as_str();
    let mut arr = [SlotKind::Emptiness; 32];
    let mut i: usize = 0;
    while i < 32
        invariant
            i <= 32,
            s@ == short_string@,
            s.is_ascii(),
            is_slot_layout_text(short_string@),
            forall|j: int| 0 <= j < i ==> #[trigger] arr@[j] == symbol_kind(short_string@[j]),
        decreases 32 - i,
    {
        let b = s.get_ascii(i);
        let c = b as char;
        assert(c == short_string@[i as int]) by {
            assert(is_slot_symbol(short_string@[i as int]));
        }
        arr[i] = symbol_to_slot_type(c);
        i = i + 1;
    }
    assert(slots_text(arr@) =~= short_string@) by {
        assert forall|j: int| 0 <= j < 32 implies slots_text(arr@)[j] == short_string@[j] by {
            assert(arr@[j] == symbol_kind(short_string@[j]));
            assert(is_slot_symbol(short_string@[j]));
        }
    }
    arr
}


/// How many of `kinds` are `kind`.
pub open spec fn kind_count(kinds: Seq<SlotKind>, kind: SlotKind) -> nat
    decreases kinds.len(),
{
    if kinds.len() == 0 {
        0
    } else {
        kind_count(kinds.drop_last(), kind) + (if kinds.last() == kind { 1nat } else { 0 })
    }
}

/// A miner's slot layout counted by kind.
pub struct SlotLayout {
    /// For each slot, how many slots of its kind come before it.
    pub nths: Vec<i32>,
    /// For each kind (by its counter index), how many slots hold it.
    pub counts: Vec<i32>,
}

/// Count a slot layout by kind: each slot is the `nth` of its kind, and the
/// counter holds how many slots each kind has.
pub fn slot_layout(kinds: [SlotKind; 32]) -> (r: SlotLayout)
    ensures
        r.nths@.len() == 32,
        forall|i: int| 0 <= i < 32 ==> #[trigger] r.nths@[i] == kind_count(kinds@.take(i), kinds@[i]),
        r.counts@.len() == SLOT_COUNT,
        forall|k: SlotKind| #[trigger] r.counts@[spec_slot_kind_index(k)] == kind_count(kinds@, k),
{
    let mut counts = create_slot_kind_counter();
    let mut nths: Vec<i32> = Vec::new();
    let mut i: usize = 0;
    proof {
        assert forall|k: SlotKind| #[trigger] counts@[spec_slot_kind_index(k)] == kind_count(kinds@.take(0), k) by {
            assert(kinds@.take(0).len() == 0);
        }
    }
    while i < 32
        invariant
            i <= 32,
            counts@.len() == SLOT_COUNT,
            nths@.len() == i,
            forall|j: int| 0 <= j < i ==> #[trigger] nths@[j] == kind_count(kinds@.take(j), kinds@[j]),
            forall|k: SlotKind| #[trigger] counts@[spec_slot_kind_index(k)] == kind_count(kinds@.take(i as int), k),
            forall|k: SlotKind| #[trigger] kind_count(kinds@.take(i as int), k) <= i,
        decreases 32 - i,
    {
        let kind = kinds[i];
        let idx = slot_kind_index(kind);
        let nth = counts[idx];
        proof {
            assert(kinds@.take(i + 1).drop_last() =~= kinds@.take(i as int));
            assert forall|k: SlotKind| #[trigger] kind_count(kinds@.take(i + 1), k) <= i + 1 by {
                assert(kind_count(kinds@.take(i as int), k) <= i);
            }
        }
        nths.push(nth);
        counts.set(idx, nth + 1);
        proof {
            assert forall|k: SlotKind| #[trigger] counts@[spec_slot_kind_index(k)] == kind_count(kinds@.take(i + 1), k) by {
                if k != kind {
                    assert(spec_slot_kind_index(k) != spec_slot_kind_index(kind));
                }
            }
        }
        i = i + 1;
    }
    assert(kinds@.take(32) =~= kinds@);
    SlotLayout { nths, counts }
}

} // verus!
