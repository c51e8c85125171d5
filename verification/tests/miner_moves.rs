use miners::cell::Cell;
use miners::drone_san::create_sandrone;
use miners::inventory::create_inventory;
use miners::miner_move::{move_miner, reveal_expando};
use miners::movable::{Direction, Movable};
use miners::options::default_options;
use miners::pickup::Pickup;
use miners::tile::Tile;
use miners::world::{generate_world, get_stored_cell, set_cell_at, World};

fn cell(tile: Tile, pickup: Pickup, pickup_value: u32) -> Cell {
    Cell { tile, tile_value: 0, pickup, pickup_value, visited: 0 }
}

fn empty() -> Cell {
    cell(Tile::Empty, Pickup::Nothing, 0)
}

fn world_with(cells: &[(i32, i32, Cell)]) -> World {
    let options = default_options();
    let mut world = generate_world(&options);
    for y in -2..3 {
        for x in -2..3 {
            set_cell_at(&mut world, x, y, empty());
        }
    }
    for (x, y, c) in cells {
        set_cell_at(&mut world, *x, *y, *c);
    }
    world
}

fn miner_up() -> Movable {
    Movable { what: 1, x: 0, y: 0, dir: Direction::Up, disabled: false }
}

#[test]
fn move_steps_forward_and_picks_up() {
    let options = default_options();
    let mut world = world_with(&[(0, -1, cell(Tile::Empty, Pickup::Stone, 2))]);
    let mut miner = miner_up();
    let mut inv = create_inventory();
    let mut sandrone = create_sandrone();
    let out = move_miner(&options, &mut world, &mut miner, &mut inv, &mut sandrone, 1, 0, 0, 0, &vec![]);
    assert_eq!((miner.x, miner.y), (0, -1));
    assert_eq!(miner.dir, Direction::Up);
    assert!(!out.bumped);
    assert!(!out.castle_turn);
    assert!(!out.was_boring);
    assert_eq!(out.points, 2);
    assert_eq!(out.energy_pickups, 0);
    assert_eq!(inv.stone_blue, 1);
    let c = get_stored_cell(&world, 0, -1);
    assert_eq!(c.pickup, Pickup::Nothing);
    assert_eq!(c.visited, 1);
}

#[test]
fn move_onto_nothing_is_boring() {
    let options = default_options();
    let mut world = world_with(&[]);
    let mut miner = miner_up();
    let mut inv = create_inventory();
    let mut sandrone = create_sandrone();
    let out = move_miner(&options, &mut world, &mut miner, &mut inv, &mut sandrone, 1, 0, 0, 0, &vec![]);
    assert_eq!((miner.x, miner.y), (0, -1));
    assert!(out.was_boring);
    assert_eq!(out.points, 0);
}

#[test]
fn magnets_pick_up_around_the_cell_left_behind() {
    let options = default_options();
    let mut world = world_with(&[
        (0, -1, cell(Tile::Empty, Pickup::Energy, 0)),
        (0, 1, cell(Tile::Empty, Pickup::Diamond, 0)),
        (1, 0, cell(Tile::Empty, Pickup::Nothing, 0)),
    ]);
    let mut miner = miner_up();
    let mut inv = create_inventory();
    let mut sandrone = create_sandrone();
    // rank 0: behind, rank 2: right, rank 9: unused
    let out = move_miner(&options, &mut world, &mut miner, &mut inv, &mut sandrone, 1, 0, 0, 0, &vec![0, 2, 9]);
    assert_eq!(out.magnet_hits, vec![true, false, false]);
    assert_eq!(out.energy_pickups, 1);
    assert_eq!(out.points, 1);
    assert_eq!(inv.diamond_white, 1);
    assert_eq!(inv.energy, 1);
    assert_eq!(get_stored_cell(&world, 0, 1).pickup, Pickup::Nothing);
    // the step itself found energy, so it was not boring
    assert!(!out.was_boring);
}

#[test]
fn move_into_a_wall_bumps_it() {
    let options = default_options();
    let mut world = world_with(&[(0, -1, cell(Tile::Wall1, Pickup::Diamond, 0))]);
    let mut miner = miner_up();
    let mut inv = create_inventory();
    let mut sandrone = create_sandrone();
    let out = move_miner(&options, &mut world, &mut miner, &mut inv, &mut sandrone, 1, 0, 0, 0, &vec![]);
    assert!(out.bumped);
    assert_eq!((miner.x, miner.y), (0, 0));
    assert_eq!(miner.dir, Direction::Right);
    assert_eq!(inv.sand, 1);
    let c = get_stored_cell(&world, 0, -1);
    assert_eq!(c.tile, Tile::Empty);
    assert_eq!(c.pickup, Pickup::Diamond);
}

#[test]
fn move_into_a_push_cell_turns() {
    let options = default_options();
    let mut world = world_with(&[(0, -1, cell(Tile::Push, Pickup::Nothing, 0))]);
    let mut miner = miner_up();
    let mut inv = create_inventory();
    let mut sandrone = create_sandrone();
    let out = move_miner(&options, &mut world, &mut miner, &mut inv, &mut sandrone, 1, 0, 0, 0, &vec![]);
    assert!(!out.bumped);
    assert_eq!((miner.x, miner.y), (0, 0));
    // a lone push cell ahead: flip-flop on the current cell's value (0, so right)
    assert_eq!(miner.dir, Direction::Right);
    assert_eq!(get_stored_cell(&world, 0, 0).tile_value, 1);
    // the next time it turns the other way
    miner.dir = Direction::Up;
    move_miner(&options, &mut world, &mut miner, &mut inv, &mut sandrone, 2, 0, 0, 0, &vec![]);
    assert_eq!(miner.dir, Direction::Left);
    assert_eq!(get_stored_cell(&world, 0, 0).tile_value, 0);
}

#[test]
fn push_corridor_sends_the_miner_along_it() {
    let options = default_options();
    let mut world = world_with(&[
        (0, -1, cell(Tile::Push, Pickup::Nothing, 0)),
        (-1, 0, cell(Tile::Push, Pickup::Nothing, 0)),
    ]);
    let mut miner = miner_up();
    let mut inv = create_inventory();
    let mut sandrone = create_sandrone();
    move_miner(&options, &mut world, &mut miner, &mut inv, &mut sandrone, 1, 0, 0, 0, &vec![]);
    // blocked ahead and on the left: away from the corner, to the right
    assert_eq!(miner.dir, Direction::Right);
}

#[test]
fn stepping_onto_a_hidden_expando_reveals_it() {
    let options = default_options();
    let mut world = world_with(&[(0, -1, cell(Tile::Empty, Pickup::Expando, 0))]);
    let before = world.expandos.len();
    let mut miner = miner_up();
    let mut inv = create_inventory();
    let mut sandrone = create_sandrone();
    move_miner(&options, &mut world, &mut miner, &mut inv, &mut sandrone, 1, 0, 0, 0, &vec![]);
    assert_eq!(world.expandos.len(), before + 1);
    let e = world.expandos[before];
    assert_eq!((e.x, e.y), (0, -1));
    let c = get_stored_cell(&world, 0, -1);
    assert_eq!(c.tile, Tile::ExpandoWater);
    // the miner walks over it and leaves the expando pickup in place
    assert_eq!(c.pickup, Pickup::Expando);
    assert_eq!((miner.x, miner.y), (0, -1));
}

#[test]
fn revealing_plain_ground_changes_nothing() {
    let options = default_options();
    let mut world = world_with(&[(1, 1, cell(Tile::Soil, Pickup::Expando, 0))]);
    reveal_expando(&options, &mut world, 1, 1);
    assert_eq!(world.expandos.len(), 0);
    assert_eq!(get_stored_cell(&world, 1, 1).tile, Tile::Soil);
}

#[test]
fn move_grows_the_world_at_its_edge() {
    let options = default_options();
    let mut world = world_with(&[(0, -5, empty())]);
    let mut miner = Movable { what: 1, x: 0, y: -5, dir: Direction::Up, disabled: false };
    let mut inv = create_inventory();
    let mut sandrone = create_sandrone();
    move_miner(&options, &mut world, &mut miner, &mut inv, &mut sandrone, 1, 0, 0, 0, &vec![]);
    assert_eq!(world.min_y, -6);
    // nothing stored before is dropped
    assert_eq!((world.min_x, world.max_x, world.max_y), (-5, 5, 5));
}

#[test]
fn many_moves_never_shrink_the_world() {
    let options = default_options();
    let mut world = generate_world(&options);
    let mut miner = miner_up();
    let mut inv = create_inventory();
    let mut sandrone = create_sandrone();
    let mut rect = (world.min_x, world.min_y, world.max_x, world.max_y);
    for tick in 0..300 {
        move_miner(&options, &mut world, &mut miner, &mut inv, &mut sandrone, tick, 0, 1, 1, &vec![0, 1]);
        let now = (world.min_x, world.min_y, world.max_x, world.max_y);
        assert!(now.0 <= rect.0 && now.1 <= rect.1 && now.2 >= rect.2 && now.3 >= rect.3);
        rect = now;
    }
}

#[test]
fn castle_edge_turns_instead_of_leaving() {
    let options = default_options();
    let mut world = world_with(&[]);
    let mut miner = miner_up();
    let mut inv = create_inventory();
    let mut sandrone = create_sandrone();
    sandrone.air_lifted = true;
    sandrone.expansion_min_x = -2;
    sandrone.expansion_max_x = 2;
    sandrone.expansion_min_y = 0;
    sandrone.expansion_max_y = 2;
    sandrone.last_empty_castle_exit_x = 0;
    sandrone.last_empty_castle_exit_y = 0;
    let out = move_miner(&options, &mut world, &mut miner, &mut inv, &mut sandrone, 7, 0, 0, 0, &vec![]);
    assert!(out.castle_turn);
    assert!(!out.castle_finished);
    assert_eq!((miner.x, miner.y), (0, 0));
    // both sides are free: flip-flop on the cell's value (0, so right)
    assert_eq!(miner.dir, Direction::Right);
    assert_eq!(get_stored_cell(&world, 0, 0).tile_value, 1);
    // the current cell is the last open exit, so it stays open
    assert_eq!(get_stored_cell(&world, 0, 0).tile, Tile::Empty);
}

#[test]
fn castle_is_completed_when_boxed_in() {
    let options = default_options();
    let mut world = world_with(&[
        (0, 1, cell(Tile::Impassible, Pickup::Nothing, 0)),
        (1, 0, cell(Tile::Impassible, Pickup::Wood, 0)),
        (-1, 0, cell(Tile::Impassible, Pickup::Nothing, 0)),
    ]);
    let mut miner = miner_up();
    let mut inv = create_inventory();
    let mut sandrone = create_sandrone();
    sandrone.air_lifted = true;
    sandrone.expansion_min_x = -1;
    sandrone.expansion_max_x = 1;
    sandrone.expansion_min_y = 0;
    sandrone.expansion_max_y = 1;
    sandrone.last_empty_castle_exit_x = 0;
    sandrone.last_empty_castle_exit_y = 0;
    let out = move_miner(&options, &mut world, &mut miner, &mut inv, &mut sandrone, 42, 0, 0, 0, &vec![]);
    assert!(out.castle_turn);
    assert!(out.castle_finished);
    assert!(!sandrone.air_lifted);
    assert_eq!(sandrone.post_castle, 42);
    // every impassible castle cell became soil, values and pickups were cleared
    assert_eq!(get_stored_cell(&world, 0, 0).tile, Tile::Soil);
    let c = get_stored_cell(&world, 1, 0);
    assert_eq!(c.tile, Tile::Soil);
    assert_eq!(c.pickup, Pickup::Nothing);
    assert_eq!(get_stored_cell(&world, 1, 1).tile, Tile::Empty);
    // outside the castle nothing changed
    assert_eq!(get_stored_cell(&world, 0, -1).tile, Tile::Empty);
}

#[test]
fn visit_lands_where_the_grid_position_was_before_magnets_grew_the_world() {
    let options = default_options();
    let mut world = world_with(&[(-5, 0, empty()), (-5, -1, empty())]);
    let mut miner = Movable { what: 1, x: -5, y: 0, dir: Direction::Up, disabled: false };
    let mut inv = create_inventory();
    let mut sandrone = create_sandrone();
    // the left magnet reaches past the stored world and grows it by a column
    move_miner(&options, &mut world, &mut miner, &mut inv, &mut sandrone, 1, 0, 0, 0, &vec![1]);
    assert_eq!(world.min_x, -6);
    assert_eq!((miner.x, miner.y), (-5, -1));
    assert_eq!(get_stored_cell(&world, -6, -1).visited, 1);
    assert_eq!(get_stored_cell(&world, -5, -1).visited, 0);
}
