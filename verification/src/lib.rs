//! A Langton-ant style mining game: the grid world, its actors and the rules
//! by which they move, dig and build.

pub mod icons;
pub mod movable;
pub mod pickup;
pub mod slottable;
pub mod inventory;
pub mod options;
pub mod color;
pub mod tile;
pub mod rng;
pub mod cell;
pub mod expando;
pub mod fountain;
pub mod world;
pub mod trie;
pub mod laws;
pub mod drone_san;
pub mod drone_win;
pub mod miner;
pub mod miner_move;
pub mod drone_me;
pub mod compass;
pub mod world_tick;
pub mod camera;
pub mod breeding;
