//! The glyphs that the world view and the UI are drawn with.

use vstd::prelude::*;

verus! {

pub const ICON_DIAMOND: &'static str = "💎";
pub const ICON_ENERGY: &'static str = "🔋";
pub const ICON_EXPANDO_WATER: &'static str = "🌊";
pub const ICON_FOUNTAIN: &'static str = "⛲";
pub const ICON_STONE: &'static str = "🪨";
pub const ICON_WATER: &'static str = "💧";
pub const ICON_TORNADO: &'static str = "🌀";
pub const ICON_WOOD: &'static str = "🪵";
pub const ICON_IMPASSIBLE: &'static str = "▓";
pub const ICON_PUSH: &'static str = "░";
pub const ICON_BLOCK_25: &'static str = "░";
pub const ICON_BLOCK_50: &'static str = "▒";
pub const ICON_BLOCK_75: &'static str = "▓";
pub const ICON_BLOCK_100: &'static str = "█";
pub const ICON_DEBUG_ORIGIN: &'static str = "⚽";

} // verus!
