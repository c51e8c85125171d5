use miners::cell::Cell;
use miners::drone_san::{create_sandrone, SandroneState};
use miners::drone_win::{create_windrone, WindroneState};
use miners::inventory::{create_inventory, get_points, Inventory};
use miners::miner::{
    bump_wall_miner, can_craft_sandrone, can_craft_windrone, move_miner_pickup_from_empty_tile, tick_miner,
};
use miners::movable::{Direction, Movable};
use miners::options::default_options;
use miners::pickup::Pickup;
use miners::slottable::SlotKind;
use miners::tile::Tile;
use miners::world::{generate_world, get_stored_cell, set_cell_at, World};

fn cell(tile: Tile, pickup: Pickup, pickup_value: u32) -> Cell {
    Cell { tile, tile_value: 0, pickup, pickup_value, visited: 0 }
}

fn world_with(cells: &[(i32, i32, Cell)]) -> World {
    let options = default_options();
    let mut world = generate_world(&options);
    for (x, y, c) in cells {
        set_cell_at(&mut world, *x, *y, *c);
    }
    world
}

fn miner_at(x: i32, y: i32, dir: Direction) -> Movable {
    Movable { what: 1, x, y, dir, disabled: false }
}

fn kinds_with_empty_at(i: usize) -> Vec<SlotKind> {
    let mut kinds = vec![SlotKind::Hammer; 32];
    kinds[i] = SlotKind::Emptiness;
    kinds
}

#[test]
fn pickup_diamond_counts_at_raised_purity() {
    let options = default_options();
    let mut world = world_with(&[(1, 0, cell(Tile::Empty, Pickup::Diamond, 1))]);
    let mut inv = create_inventory();
    let got = move_miner_pickup_from_empty_tile(&options, &mut world, &mut inv, 1, 1, 0);
    assert!(!got.boring);
    assert!(!got.energy);
    assert_eq!(got.points, Some(3));
    assert_eq!(inv.diamond_blue, 1);
    assert_eq!(inv.diamond_green, 0);
    let after = get_stored_cell(&world, 1, 0);
    assert_eq!(after.pickup, Pickup::Nothing);
    assert_eq!(after.pickup_value, 0);
    assert_eq!(after.tile, Tile::Empty);
}

#[test]
fn pickup_purity_is_capped_at_three() {
    let options = default_options();
    let mut world = world_with(&[(1, 0, cell(Tile::Empty, Pickup::Stone, 2))]);
    let mut inv = create_inventory();
    let got = move_miner_pickup_from_empty_tile(&options, &mut world, &mut inv, 5, 1, 0);
    assert_eq!(inv.stone_yellow, 1);
    // A stone scores its own value, not the raised one.
    assert_eq!(got.points, Some(2));
}

#[test]
fn pickup_of_nothing_is_boring_and_changes_nothing() {
    let options = default_options();
    let mut world = world_with(&[(1, 0, cell(Tile::Empty, Pickup::Nothing, 0))]);
    let mut inv = create_inventory();
    let got = move_miner_pickup_from_empty_tile(&options, &mut world, &mut inv, 0, 1, 0);
    assert!(got.boring);
    assert_eq!(got.points, None);
    assert_eq!(inv, create_inventory());
}

#[test]
fn second_pickup_on_a_cell_finds_nothing() {
    let options = default_options();
    let mut world = world_with(&[(0, 1, cell(Tile::Empty, Pickup::Energy, 0))]);
    let mut inv = create_inventory();
    let first = move_miner_pickup_from_empty_tile(&options, &mut world, &mut inv, 0, 0, 1);
    assert!(first.energy);
    assert_eq!(inv.energy, 1);
    let second = move_miner_pickup_from_empty_tile(&options, &mut world, &mut inv, 0, 0, 1);
    assert!(second.boring);
    assert!(!second.energy);
    assert_eq!(inv.energy, 1);
}

#[test]
fn pickup_outside_the_stored_world_grows_it() {
    let options = default_options();
    let mut world = world_with(&[]);
    let mut inv = create_inventory();
    move_miner_pickup_from_empty_tile(&options, &mut world, &mut inv, 0, 8, -7);
    assert_eq!(world.max_x, 8);
    assert_eq!(world.min_y, -7);
    assert_eq!(world.min_x, -5);
    assert_eq!(world.max_y, 5);
}

#[test]
fn pickups_never_cost_points() {
    let options = default_options();
    let mut world = world_with(&[
        (1, 0, cell(Tile::Empty, Pickup::Stone, 1)),
        (2, 0, cell(Tile::Empty, Pickup::Diamond, 0)),
        (3, 0, cell(Tile::Empty, Pickup::Wood, 0)),
    ]);
    let mut inv = create_inventory();
    let mut last = get_points(&inv);
    for x in 1..4 {
        move_miner_pickup_from_empty_tile(&options, &mut world, &mut inv, 0, x, 0);
        let now = get_points(&inv);
        assert!(now >= last);
        last = now;
    }
    // a green stone scores nothing, a white diamond 100
    assert_eq!(last, 100);
}

#[test]
fn bump_chips_a_wall_down() {
    let options = default_options();
    let mut world = world_with(&[(0, -1, cell(Tile::Wall4, Pickup::Diamond, 2))]);
    let mut miner = miner_at(0, 0, Direction::Up);
    let mut inv = create_inventory();
    bump_wall_miner(&options, &mut world, &mut miner, &mut inv, 4, 0, 0, 0, -1, 0, -1);
    let after = get_stored_cell(&world, 0, -1);
    assert_eq!(after.tile, Tile::Wall3);
    assert_eq!(after.pickup, Pickup::Diamond);
    assert_eq!(after.pickup_value, 2);
    assert_eq!(inv.sand, 0);
    assert_eq!((miner.x, miner.y), (0, 0));
}

#[test]
fn bump_with_hammers_breaks_the_wall_and_gives_sand() {
    let options = default_options();
    let mut world = world_with(&[
        (0, -1, cell(Tile::Wall2, Pickup::Nothing, 0)),
        (-1, -1, Cell { tile: Tile::Empty, tile_value: 0, pickup: Pickup::Nothing, pickup_value: 0, visited: 5 }),
        (1, -1, Cell { tile: Tile::Empty, tile_value: 0, pickup: Pickup::Nothing, pickup_value: 0, visited: 2 }),
    ]);
    let mut miner = miner_at(0, 0, Direction::Up);
    let mut inv = create_inventory();
    bump_wall_miner(&options, &mut world, &mut miner, &mut inv, 2, 1, 0, 0, -1, 0, -1);
    assert_eq!(get_stored_cell(&world, 0, -1).tile, Tile::Empty);
    assert_eq!(inv.sand, 1);
    // the left side of the wall was visited more often
    assert_eq!(miner.dir, Direction::Left);
}

#[test]
fn bump_turns_right_on_a_tie() {
    let options = default_options();
    let mut world = world_with(&[
        (0, -1, cell(Tile::Wall1, Pickup::Nothing, 0)),
        (-1, -1, cell(Tile::Empty, Pickup::Nothing, 0)),
        (1, -1, cell(Tile::Empty, Pickup::Nothing, 0)),
    ]);
    let mut miner = miner_at(0, 0, Direction::Up);
    let mut inv = create_inventory();
    bump_wall_miner(&options, &mut world, &mut miner, &mut inv, 1, 0, 0, 0, -1, 0, -1);
    assert_eq!(miner.dir, Direction::Right);
}

#[test]
fn drills_punch_on_behind_the_wall() {
    let options = default_options();
    let mut world = world_with(&[
        (0, -1, cell(Tile::Wall4, Pickup::Nothing, 0)),
        (0, -2, cell(Tile::Wall3, Pickup::Nothing, 0)),
        (0, -3, cell(Tile::Wall3, Pickup::Nothing, 0)),
    ]);
    let mut miner = miner_at(0, 0, Direction::Up);
    let mut inv = create_inventory();
    // three hammers: the drill starts with strength two
    bump_wall_miner(&options, &mut world, &mut miner, &mut inv, 4, 3, 2, 0, -1, 0, -1);
    assert_eq!(get_stored_cell(&world, 0, -1).tile, Tile::Empty);
    assert_eq!(inv.sand, 1);
    assert_eq!(get_stored_cell(&world, 0, -2).tile, Tile::Wall1);
    assert_eq!(get_stored_cell(&world, 0, -3).tile, Tile::Wall2);
}

#[test]
fn windrone_crafting_needs_slot_wood_and_stones() {
    let mut inv = create_inventory();
    inv.wood = 6;
    inv.stone_white = 3;
    inv.stone_yellow = 3;
    let kinds = kinds_with_empty_at(4);
    assert!(can_craft_windrone(&kinds, &inv));
    let mut poor = inv;
    poor.wood = 5;
    assert!(!can_craft_windrone(&kinds, &poor));
    let mut few = inv;
    few.stone_yellow = 2;
    assert!(!can_craft_windrone(&kinds, &few));
    let full = vec![SlotKind::Hammer; 32];
    assert!(!can_craft_windrone(&full, &inv));
    let mut has_one = kinds_with_empty_at(4);
    has_one[9] = SlotKind::Windrone;
    assert!(!can_craft_windrone(&has_one, &inv));
}

#[test]
fn sandrone_crafting_ignores_white_stones() {
    let mut inv = create_inventory();
    inv.wood = 6;
    inv.water = 11;
    inv.stone_white = 10;
    inv.stone_blue = 5;
    let kinds = kinds_with_empty_at(0);
    assert!(!can_craft_sandrone(&kinds, &inv));
    inv.stone_green = 1;
    assert!(can_craft_sandrone(&kinds, &inv));
    inv.water = 10;
    assert!(!can_craft_sandrone(&kinds, &inv));
}

#[test]
fn tick_miner_crafts_a_windrone_from_white_stones_first() {
    let mut windrone = create_windrone();
    let mut sandrone = create_sandrone();
    let mut inv = create_inventory();
    inv.wood = 7;
    inv.stone_white = 3;
    inv.stone_blue = 4;
    inv.stone_green = 9;
    let mut kinds = vec![SlotKind::Hammer; 32];
    kinds[6] = SlotKind::Emptiness;
    kinds[20] = SlotKind::Emptiness;
    let events = tick_miner(&mut windrone, &mut sandrone, &mut inv, &mut kinds);
    assert_eq!(events.windrone_slot, Some(6));
    assert_eq!(events.sandrone_slot, None);
    assert!(!events.energy_boost);
    assert_eq!(kinds[6], SlotKind::Windrone);
    assert_eq!(kinds[20], SlotKind::Emptiness);
    assert_eq!(windrone.state, WindroneState::WaitingForWind);
    assert_eq!(inv.wood, 2);
    assert_eq!(inv.stone_white, 0);
    assert_eq!(inv.stone_blue, 2);
    assert_eq!(inv.stone_green, 9);
    // a second tick does not craft another one
    inv.wood = 20;
    inv.stone_white = 20;
    let again = tick_miner(&mut windrone, &mut sandrone, &mut inv, &mut kinds);
    assert_eq!(again.windrone_slot, None);
    assert_eq!(inv.wood, 20);
    assert!(!can_craft_windrone(&kinds, &inv));
}

#[test]
fn tick_miner_crafts_a_sandrone_keeping_white_stones() {
    let mut windrone = create_windrone();
    windrone.state = WindroneState::WaitingForWind;
    let mut sandrone = create_sandrone();
    let mut inv = create_inventory();
    inv.wood = 12;
    inv.water = 11;
    inv.stone_white = 3;
    inv.stone_blue = 4;
    inv.stone_green = 2;
    let mut kinds = kinds_with_empty_at(31);
    kinds[0] = SlotKind::Windrone;
    let events = tick_miner(&mut windrone, &mut sandrone, &mut inv, &mut kinds);
    assert_eq!(events.sandrone_slot, Some(31));
    assert_eq!(kinds[31], SlotKind::Sandrone);
    assert_eq!(sandrone.state, SandroneState::WaitingForWater);
    assert_eq!(inv.wood, 7);
    assert_eq!(inv.water, 1);
    assert_eq!(inv.stone_white, 3);
    assert_eq!(inv.stone_blue, 2);
    assert_eq!(inv.stone_green, 2);
}

#[test]
fn tick_miner_sends_a_ready_windrone_for_ten_wind() {
    let mut windrone = create_windrone();
    windrone.state = WindroneState::ReadyForTakeOff;
    let mut sandrone = create_sandrone();
    let mut inv = create_inventory();
    inv.wind = 12;
    let mut kinds = vec![SlotKind::Hammer; 32];
    let events = tick_miner(&mut windrone, &mut sandrone, &mut inv, &mut kinds);
    assert_eq!(windrone.state, WindroneState::FlyingToGoal);
    assert_eq!(inv.wind, 2);
    assert!(!events.energy_boost);
}

#[test]
fn tick_miner_rewards_a_returned_windrone() {
    let mut windrone = create_windrone();
    windrone.state = WindroneState::ReturnedHome;
    let mut sandrone = create_sandrone();
    let mut inv = create_inventory();
    let mut kinds = vec![SlotKind::Hammer; 32];
    let events = tick_miner(&mut windrone, &mut sandrone, &mut inv, &mut kinds);
    assert!(events.energy_boost);
    assert_eq!(windrone.state, WindroneState::WaitingForWind);
    assert_eq!(inv, create_inventory());
}

#[test]
fn inventory_copy_counts_wind_as_water() {
    let mut inv: Inventory = create_inventory();
    inv.wind = 4;
    inv.water = 9;
    let copy = miners::inventory::clone_inventory(&inv);
    assert_eq!(copy.water, 4);
    assert_eq!(copy.wind, 4);
}
