//! What a miner or drone receives when it moves onto a cell.

use vstd::prelude::*;
use vstd::string::*;
use crate::options::Options;
use crate::color::{add_fg_color_with_reset, fg_colored, COLOR_ENERGY, COLOR_BLUE, COLOR_FOUNTAIN, COLOR_WIND, COLOR_WOOD, COLOR_LEVEL_1, COLOR_LEVEL_2, COLOR_LEVEL_3};
use crate::icons::{ICON_DIAMOND, ICON_ENERGY, ICON_EXPANDO_WATER, ICON_FOUNTAIN, ICON_STONE, ICON_WATER, ICON_TORNADO, ICON_WOOD};

verus! {

/// The item lying on a cell.
#[derive(Debug, Clone, Copy, PartialEq, Eq, Structural)]
pub enum Pickup {
    Diamond,
    Nothing,
    Energy,
    Stone,
    Expando,
    Fountain,
    Wind,
    Water,
    Wood,
}

/// How strongly Jack's Compass is drawn to a pickup.
pub open spec fn spec_pickup_priority(pickup: Pickup) -> u32 {
    match pickup {
        Pickup::Diamond => 100,
        Pickup::Nothing => 0,
        Pickup::Energy => 1000,
        Pickup::Stone => 1,
        Pickup::Expando => 0,
        Pickup::Fountain => 0,
        Pickup::Wind => 20,
        Pickup::Water => 20,
        Pickup::Wood => 20,
    }
}

/// The two-column text a pickup is drawn with on an empty tile.
pub open spec fn pickup_text(pickup: Pickup) -> Seq<char> {
    match pickup {
        Pickup::Diamond => ICON_DIAMOND@,
        Pickup::Energy => ICON_ENERGY@,
        Pickup::Expando => ICON_EXPANDO_WATER@,
        Pickup::Fountain => ICON_FOUNTAIN@,
        Pickup::Nothing => "  "@,
        Pickup::Stone => ICON_STONE@,
        Pickup::Water => ICON_WATER@,
        Pickup::Wind => ICON_TORNADO@ + " "@,
        Pickup::Wood => ICON_WOOD@,
    }
}

/// Priority of a pickup for Jack's Compass; energy first, then diamonds.
pub fn pickup_to_priority(pickup: Pickup) -> (r: u32)
    ensures
        r == spec_pickup_priority(pickup),
{
    match pickup {
        Pickup::Diamond => 100,
        Pickup::Nothing => 0,
        Pickup::Energy => 1000,
        Pickup::Stone => 1,
        Pickup::Expando => 0,
        Pickup::Fountain => 0,
        Pickup::Wind => 20,
        Pickup::Water => 20,
        Pickup::Wood => 20,
    }
}

/// The text a pickup is painted with. The coordinates do not change it.
pub fn pickup_to_string(pickup: Pickup, _wx: i32, _wy: i32) -> (r: String)
    ensures
        r@ == pickup_text(pickup),
{
    match pickup {
        Pickup::Diamond => String::from_str(ICON_DIAMOND),
        Pickup::Energy => String::from_str(ICON_ENERGY),
        Pickup::Expando => String::from_str(ICON_EXPANDO_WATER),
        Pickup::Fountain => String::from_str(ICON_FOUNTAIN),
        Pickup::Nothing => String::from_str("  "),
        Pickup::Stone => String::from_str(ICON_STONE),
        Pickup::Water => String::from_str(ICON_WATER),
        Pickup::Wind => {
            let mut s = String::from_str(ICON_TORNADO);
            s.append(" ");
            s
        },
        Pickup::Wood => String::from_str(ICON_WOOD),
    }
}

/// Pickups whose coloring does not panic: stones and diamonds of value at most 2.
pub open spec fn colorable_pickup(pickup: Pickup, value: u32) -> bool {
    (pickup == Pickup::Stone || pickup == Pickup::Diamond) ==> value <= 2
}

/// `s` in the foreground color of `pickup` (stones and diamonds by their value).
pub open spec fn pickup_colored(s: Seq<char>, pickup: Pickup, value: u32, o: &Options) -> Seq<char> {
    match pickup {
        Pickup::Nothing => s,
        Pickup::Energy => fg_colored(s, COLOR_ENERGY@, o),
        Pickup::Expando => fg_colored(s, COLOR_BLUE@, o),
        Pickup::Fountain => fg_colored(s, COLOR_FOUNTAIN@, o),
        Pickup::Water => fg_colored(s, COLOR_FOUNTAIN@, o),
        Pickup::Wind => fg_colored(s, COLOR_WIND@, o),
        Pickup::Wood => fg_colored(s, COLOR_WOOD@, o),
        Pickup::Stone | Pickup::Diamond => fg_colored(
            s,
            if value == 0 {
                COLOR_LEVEL_1@
            } else if value == 1 {
                COLOR_LEVEL_2@
            } else {
                COLOR_LEVEL_3@
            },
            o,
        ),
    }
}

/// `str`, the text of a pickup, in the pickup's color.
pub fn pickup_add_color(str: &String, pickup: Pickup, value: u32, options: &Options) -> (r: String)
    requires
        colorable_pickup(pickup, value),
    ensures
        r@ == pickup_colored(str@, pickup, value, options),
{
    match pickup {
        Pickup::Nothing => str.clone(),
        Pickup::Energy => add_fg_color_with_reset(str, COLOR_ENERGY, options),
        Pickup::Expando => add_fg_color_with_reset(str, COLOR_BLUE, options),
        Pickup::Fountain => add_fg_color_with_reset(str, COLOR_FOUNTAIN, options),
        Pickup::Water => add_fg_color_with_reset(str, COLOR_FOUNTAIN, options),
        Pickup::Wind => add_fg_color_with_reset(str, COLOR_WIND, options),
        Pickup::Wood => add_fg_color_with_reset(str, COLOR_WOOD, options),
        Pickup::Stone | Pickup::Diamond => {
            if value == 0 {
                add_fg_color_with_reset(str, COLOR_LEVEL_1, options)
            } else if value == 1 {
                add_fg_color_with_reset(str, COLOR_LEVEL_2, options)
            } else {
                add_fg_color_with_reset(str, COLOR_LEVEL_3, options)
            }
        },
    }
}

} // verus!
