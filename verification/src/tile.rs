//! The immovable part of a cell, and the text a cell is painted with.

use vstd::prelude::*;
use vstd::string::*;
use crate::icons::{
    ICON_EXPANDO_WATER, ICON_FOUNTAIN, ICON_IMPASSIBLE, ICON_PUSH, ICON_BLOCK_25, ICON_BLOCK_50,
    ICON_BLOCK_75, ICON_BLOCK_100, ICON_DEBUG_ORIGIN,
};
use crate::pickup::{Pickup, pickup_text, pickup_to_string, pickup_add_color, pickup_colored};
use crate::options::Options;
use crate::color::{
    add_fg_color_with_reset, add_bg_color_with_reset, fg_colored, bg_colored, COLOR_PUSH,
    COLOR_LEVEL_1, COLOR_LEVEL_2, COLOR_LEVEL_3, COLOR_EXPANDO_WATER, COLOR_FOUNTAIN,
    COLOR_IMPOSSIBLE, COLOR_SOIL0, COLOR_SOIL1, COLOR_SOIL2, COLOR_SOIL3, COLOR_SOIL4, COLOR_SOIL5,
    COLOR_SOIL6, COLOR_SOIL7, COLOR_SOIL8, COLOR_SOIL9, COLOR_SOIL10,
};

verus! {

/// The immovable content of a cell.
#[derive(Debug, Clone, Copy, PartialEq, Eq, Structural)]
pub enum Tile {
    ExpandoWater,
    Empty,
    Fountain,
    Impassible,
    Push,
    Soil,
    Wall1,
    Wall2,
    Wall3,
    Wall4,
    ZeroZero,
    TenLine,
    HideWorld,
    Test2,
    Test3,
}

/// The single digit character for `d` in `0..10`.
pub open spec fn digit_char(d: int) -> char {
    if d == 0 {
        '0'
    } else if d == 1 {
        '1'
    } else if d == 2 {
        '2'
    } else if d == 3 {
        '3'
    } else if d == 4 {
        '4'
    } else if d == 5 {
        '5'
    } else if d == 6 {
        '6'
    } else if d == 7 {
        '7'
    } else if d == 8 {
        '8'
    } else {
        '9'
    }
}

pub open spec fn abs(x: int) -> int {
    if x < 0 {
        -x
    } else {
        x
    }
}

/// The debug grid drawn every tenth row and column: `##` at the origin, blank at
/// other crossings, and otherwise the last digit of the column (on a grid row) or of
/// the row (on a grid column).
pub open spec fn ten_line_text(wx: int, wy: int) -> Seq<char> {
    if wy % 10 == 0 {
        if wx % 10 == 0 {
            if wx == 0 && wy == 0 {
                "##"@
            } else {
                "  "@
            }
        } else {
            seq![' ', digit_char(abs(wx) % 10)]
        }
    } else {
        seq![' ', digit_char(abs(wy) % 10)]
    }
}

/// Tiles that are drawn without a panic.
pub open spec fn paintable_tile(tile: Tile) -> bool {
    tile != Tile::Test2 && tile != Tile::Test3
}

/// The uncolored text of a cell.
pub open spec fn cell_text(tile: Tile, pickup: Pickup, wx: int, wy: int) -> Seq<char> {
    match tile {
        Tile::ExpandoWater => ICON_EXPANDO_WATER@,
        Tile::Fountain => ICON_FOUNTAIN@,
        Tile::Impassible => ICON_IMPASSIBLE@ + " "@,
        Tile::Push => ICON_PUSH@ + " "@,
        Tile::Soil => "  "@,
        Tile::Wall1 => ICON_BLOCK_25@ + ICON_BLOCK_25@,
        Tile::Wall2 => ICON_BLOCK_50@ + ICON_BLOCK_50@,
        Tile::Wall3 => ICON_BLOCK_75@ + ICON_BLOCK_75@,
        Tile::Wall4 => ICON_BLOCK_100@ + ICON_BLOCK_100@,
        Tile::TenLine => ten_line_text(wx, wy),
        Tile::ZeroZero => ICON_DEBUG_ORIGIN@,
        Tile::HideWorld => if wx % 10 == 0 || wy % 10 == 0 {
            ten_line_text(wx, wy)
        } else {
            ICON_BLOCK_25@ + ICON_BLOCK_25@
        },
        Tile::Empty => pickup_text(pickup),
        _ => Seq::empty(),
    }
}

/// Cells whose coloring does not panic: wall values are at most 2, and an empty,
/// water or fountain tile carries a pickup that can be colored.
pub open spec fn colorable_cell(tile: Tile, tile_value: u32, pickup: Pickup) -> bool {
    match tile {
        Tile::Wall1 | Tile::Wall2 | Tile::Wall3 => tile_value <= 2,
        Tile::Empty | Tile::ExpandoWater | Tile::Fountain => (pickup == Pickup::Stone || pickup
            == Pickup::Diamond) ==> tile_value <= 2,
        _ => true,
    }
}

/// The soil color for a soil value (values of 10 and more share the last color).
pub open spec fn soil_color(v: u32) -> Seq<char> {
    if v == 0 {
        COLOR_SOIL0@
    } else if v == 1 {
        COLOR_SOIL1@
    } else if v == 2 {
        COLOR_SOIL2@
    } else if v == 3 {
        COLOR_SOIL3@
    } else if v == 4 {
        COLOR_SOIL4@
    } else if v == 5 {
        COLOR_SOIL5@
    } else if v == 6 {
        COLOR_SOIL6@
    } else if v == 7 {
        COLOR_SOIL7@
    } else if v == 8 {
        COLOR_SOIL8@
    } else if v == 9 {
        COLOR_SOIL9@
    } else {
        COLOR_SOIL10@
    }
}

/// The level color of a wall, stone or diamond value in `0..=2`.
pub open spec fn level_color(v: u32) -> Seq<char> {
    if v == 0 {
        COLOR_LEVEL_1@
    } else if v == 1 {
        COLOR_LEVEL_2@
    } else {
        COLOR_LEVEL_3@
    }
}

/// The colored text of a cell whose uncolored text is `s`.
pub open spec fn cell_colored(s: Seq<char>, tile: Tile, tile_value: u32, pickup: Pickup, o: &Options) -> Seq<char> {
    match tile {
        Tile::Push => bg_colored(s, COLOR_PUSH@, o),
        Tile::Wall1 | Tile::Wall2 | Tile::Wall3 => fg_colored(s, level_color(tile_value), o),
        Tile::Empty => pickup_colored(s, pickup, tile_value, o),
        Tile::ExpandoWater => bg_colored(pickup_colored(s, pickup, tile_value, o), COLOR_EXPANDO_WATER@, o),
        Tile::Fountain => bg_colored(pickup_colored(s, pickup, tile_value, o), COLOR_FOUNTAIN@, o),
        Tile::Impassible => bg_colored(s, COLOR_IMPOSSIBLE@, o),
        Tile::Soil => bg_colored(s, soil_color(tile_value), o),
        _ => s,
    }
}

fn digit_str(d: i32) -> (r: &'static str)
    requires
        0 <= d < 10,
    ensures
        r@ == seq![' ', digit_char(d as int)],
{
    proof {
        reveal_strlit(" 0");
        reveal_strlit(" 1");
        reveal_strlit(" 2");
        reveal_strlit(" 3");
        reveal_strlit(" 4");
        reveal_strlit(" 5");
        reveal_strlit(" 6");
        reveal_strlit(" 7");
        reveal_strlit(" 8");
        reveal_strlit(" 9");
    }
    let r = if d == 0 {
        " 0"
    } else if d == 1 {
        " 1"
    } else if d == 2 {
        " 2"
    } else if d == 3 {
        " 3"
    } else if d == 4 {
        " 4"
    } else if d == 5 {
        " 5"
    } else if d == 6 {
        " 6"
    } else if d == 7 {
        " 7"
    } else if d == 8 {
        " 8"
    } else {
        " 9"
    };
    assert(r@ =~= seq![' ', digit_char(d as int)]);
    r
}

proof fn lemma_neg_mod_ten(v: int)
    ensures
        (v % 10 == 0) == ((-v) % 10 == 0),
{
    vstd::arithmetic::div_mod::lemma_fundamental_div_mod(v, 10);
    vstd::arithmetic::div_mod::lemma_fundamental_div_mod(-v, 10);
    if v % 10 == 0 {
        vstd::arithmetic::div_mod::lemma_mod_multiples_basic(-(v / 10), 10);
        assert(-v == (-(v / 10)) * 10) by (nonlinear_arith)
            requires v == 10 * (v / 10);
    }
    if (-v) % 10 == 0 {
        vstd::arithmetic::div_mod::lemma_mod_multiples_basic(-((-v) / 10), 10);
        assert(v == (-((-v) / 10)) * 10) by (nonlinear_arith)
            requires -v == 10 * ((-v) / 10);
    }
}

/// Whether `v` is a multiple of ten (negative values included).
fn multiple_of_ten(v: i32) -> (r: bool)
    ensures
        r == (v % 10 == 0),
{
    let a: i64 = if v < 0 { -(v as i64) } else { v as i64 };
    let r = a % 10 == 0;
    proof {
        if v < 0 {
            lemma_neg_mod_ten(v as int);
        }
    }
    r
}

/// The debug grid text of a cell (see `ten_line_text`).
pub fn ten_line_cell(wx: i32, wy: i32) -> (r: String)
    requires
        wx > i32::MIN,
        wy > i32::MIN,
    ensures
        r@ == ten_line_text(wx as int, wy as int),
{
    proof {
        reveal_strlit("##");
        reveal_strlit("  ");
    }
    if multiple_of_ten(wy) {
        if multiple_of_ten(wx) {
            if wx == 0 && wy == 0 {
                return String::from_str("##");
            }
            return String::from_str("  ");
        }
        let a = if wx < 0 { -wx } else { wx };
        return String::from_str(digit_str(a % 10));
    }
    let b = if wy < 0 { -wy } else { wy };
    String::from_str(digit_str(b % 10))
}

/// The uncolored text of a cell at world coordinate `(wx, wy)`.
pub fn cell_to_uncolored_string(tile: Tile, pickup: Pickup, _tile_value: u32, wx: i32, wy: i32) -> (r: String)
    requires
        paintable_tile(tile),
        tile == Tile::TenLine || tile == Tile::HideWorld ==> wx > i32::MIN && wy > i32::MIN,
    ensures
        r@ == cell_text(tile, pickup, wx as int, wy as int),
{
    match tile {
        Tile::ExpandoWater => String::from_str(ICON_EXPANDO_WATER),
        Tile::Fountain => String::from_str(ICON_FOUNTAIN),
        Tile::Impassible => {
            let mut s = String::from_str(ICON_IMPASSIBLE);
            s.append(" ");
            s
        },
        Tile::Push => {
            let mut s = String::from_str(ICON_PUSH);
            s.append(" ");
            s
        },
        Tile::Soil => String::from_str("  "),
        Tile::Wall1 => {
            let mut s = String::from_str(ICON_BLOCK_25);
            s.append(ICON_BLOCK_25);
            s
        },
        Tile::Wall2 => {
            let mut s = String::from_str(ICON_BLOCK_50);
            s.append(ICON_BLOCK_50);
            s
        },
        Tile::Wall3 => {
            let mut s = String::from_str(ICON_BLOCK_75);
            s.append(ICON_BLOCK_75);
            s
        },
        Tile::Wall4 => {
            let mut s = String::from_str(ICON_BLOCK_100);
            s.append(ICON_BLOCK_100);
            s
        },
        Tile::TenLine => ten_line_cell(wx, wy),
        Tile::ZeroZero => String::from_str(ICON_DEBUG_ORIGIN),
        Tile::HideWorld => {
            if multiple_of_ten(wx) || multiple_of_ten(wy) {
                ten_line_cell(wx, wy)
            } else {
                let mut s = String::from_str(ICON_BLOCK_25);
                s.append(ICON_BLOCK_25);
                s
            }
        },
        Tile::Empty => pickup_to_string(pickup, wx, wy),
        _ => String::new(),
    }
}

/// `str`, the text of a cell, colored according to its tile, value and pickup.
pub fn cell_add_color(str: &String, tile: Tile, tile_value: u32, pickup: Pickup, options: &Options) -> (r: String)
    requires
        colorable_cell(tile, tile_value, pickup),
    ensures
        r@ == cell_colored(str@, tile, tile_value, pickup, options),
{
    match tile {
        Tile::Push => add_bg_color_with_reset(str, COLOR_PUSH, options),
        Tile::Wall1 | Tile::Wall2 | Tile::Wall3 => {
            if tile_value == 0 {
                add_fg_color_with_reset(str, COLOR_LEVEL_1, options)
            } else if tile_value == 1 {
                add_fg_color_with_reset(str, COLOR_LEVEL_2, options)
            } else {
                add_fg_color_with_reset(str, COLOR_LEVEL_3, options)
            }
        },
        Tile::Empty => pickup_add_color(str, pickup, tile_value, options),
        Tile::ExpandoWater => {
            let p = pickup_add_color(str, pickup, tile_value, options);
            add_bg_color_with_reset(&p, COLOR_EXPANDO_WATER, options)
        },
        Tile::Fountain => {
            let p = pickup_add_color(str, pickup, tile_value, options);
            add_bg_color_with_reset(&p, COLOR_FOUNTAIN, options)
        },
        Tile::Impassible => add_bg_color_with_reset(str, COLOR_IMPOSSIBLE, options),
        Tile::Soil => {
            let v = if tile_value < 10 { tile_value } else { 10 };
            let c = if v == 0 {
                COLOR_SOIL0
            } else if v == 1 {
                COLOR_SOIL1
            } else if v == 2 {
                COLOR_SOIL2
            } else if v == 3 {
                COLOR_SOIL3
            } else if v == 4 {
                COLOR_SOIL4
            } else if v == 5 {
                COLOR_SOIL5
            } else if v == 6 {
                COLOR_SOIL6
            } else if v == 7 {
                COLOR_SOIL7
            } else if v == 8 {
                COLOR_SOIL8
            } else if v == 9 {
                COLOR_SOIL9
            } else {
                COLOR_SOIL10
            };
            add_bg_color_with_reset(str, c, options)
        },
        _ => str.clone(),
    }
}

} // verus!
