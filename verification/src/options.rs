//! Settings of a run: world seed, batch size, what to paint and how.

use vstd::prelude::*;

verus! {

/// The integer and boolean settings of a run. The two mutation rates live
/// with the genetic loop, which is the only code that reads them.
#[derive(Debug)]
pub struct Options {
    pub batch_size: u8,
    pub initial_miner_code: String,
    /// Mutate a new batch from the overall best or the last winner?
    pub mutate_from_best: bool,
    /// Reset every this many generated miners.
    pub reset_rate: u32,
    /// Only reset after that many miners did not yield a new best?
    pub reset_after_noop: bool,
    /// Press enter to forward a tick?
    pub return_to_move: bool,
    pub seed: u64,
    pub speed: u64,
    pub frame_skip: u32,
    pub frames_now: u32,
    pub visual: bool,
    /// Sandrone will pick up the miner after putting down this many push tiles.
    pub sandrone_pickup_count: u32,
    /// Sandrone stops building once the castle area is at least this big.
    pub sandcastle_area_limit: u32,
    /// Print the world in html rather than terminal ansi?
    pub html_mode: bool,
    pub show_biomes: bool,
    /// Which biome is painted.
    pub visible_index: usize,
    pub paint_ten_lines: bool,
    pub paint_zero_zero: bool,
    pub paint_miner_ids: bool,
    pub paint_empty_world: bool,
    /// Do not draw the world that does not explicitly exist in memory.
    pub hide_world_oob: bool,
    /// Do not draw the world that explicitly exists in memory.
    pub hide_world_ib: bool,
    pub paint_visited: bool,
    pub paint_visited_bool: bool,
    pub paint_colors: bool,
    pub paint_bg_colors: bool,
    pub paint_fg_colors: bool,
}

/// The settings a run starts with before the command line is read.
pub fn default_options() -> (r: Options)
    ensures
        r.batch_size == 10,
        r.initial_miner_code@ == Seq::<char>::empty(),
        !r.mutate_from_best,
        r.seed == 210114,
        r.speed == 1,
        r.frame_skip == 0,
        r.frames_now == 0,
        r.reset_rate == 500,
        r.reset_after_noop,
        !r.return_to_move,
        !r.visual,
        r.sandrone_pickup_count == 200,
        r.sandcastle_area_limit == 500,
        !r.html_mode,
        r.show_biomes,
        r.visible_index == 0,
        !r.paint_ten_lines,
        !r.paint_zero_zero,
        !r.paint_empty_world,
        !r.paint_miner_ids,
        !r.hide_world_oob,
        !r.hide_world_ib,
        !r.paint_visited,
        !r.paint_visited_bool,
        r.paint_colors,
        r.paint_bg_colors,
        r.paint_fg_colors,
{
    Options {
        batch_size: 10,
        initial_miner_code: String::new(),
        mutate_from_best: false,
        seed: 210114,
        speed: 1,
        frame_skip: 0,
        frames_now: 0,
        reset_rate: 500,
        reset_after_noop: true,
        return_to_move: false,
        visual: false,
        sandrone_pickup_count: 200,
        sandcastle_area_limit: 500,
        html_mode: false,
        show_biomes: true,
        visible_index: 0,
        paint_ten_lines: false,
        paint_zero_zero: false,
        paint_empty_world: false,
        paint_miner_ids: false,
        hide_world_oob: false,
        hide_world_ib: false,
        paint_visited: false,
        paint_visited_bool: false,
        paint_colors: true,
        paint_bg_colors: true,
        paint_fg_colors: true,
    }
}

} // verus!
