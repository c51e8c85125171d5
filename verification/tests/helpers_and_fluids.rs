use miners::cell::Cell;
use miners::compass::jacks_compass;
use miners::drone_me::{move_drone, move_drone_pickup_from_empty_tile, tick_me_drone, MeDrone};
use miners::expando::{create_expando, tick_expando};
use miners::fountain::{create_fountain, tick_fountain};
use miners::inventory::create_inventory;
use miners::movable::{Direction, Movable};
use miners::options::default_options;
use miners::pickup::Pickup;
use miners::tile::Tile;
use miners::world::{generate_world, get_stored_cell, set_cell_at, World};
use miners::world_tick::tick_world;

fn cell(tile: Tile, pickup: Pickup, value: u32) -> Cell {
    Cell { tile, tile_value: value, pickup, pickup_value: value, visited: 0 }
}

fn flat_world() -> World {
    let options = default_options();
    let mut world = generate_world(&options);
    for y in -5..6 {
        for x in -5..6 {
            set_cell_at(&mut world, x, y, cell(Tile::Empty, Pickup::Nothing, 0));
        }
    }
    world
}

#[test]
fn drone_collects_for_the_miner_and_clears_the_values() {
    let options = default_options();
    let mut world = flat_world();
    set_cell_at(&mut world, 2, 2, cell(Tile::Soil, Pickup::Stone, 7));
    let mut inv = create_inventory();
    let energy = move_drone_pickup_from_empty_tile(&options, &mut world, &mut inv, 2, 2);
    assert!(!energy);
    assert_eq!(inv.stone_yellow, 1);
    let c = get_stored_cell(&world, 2, 2);
    assert_eq!(c.pickup, Pickup::Nothing);
    assert_eq!(c.tile_value, 0);
    assert_eq!(c.pickup_value, 0);
    assert_eq!(c.visited, 1);
    assert_eq!(c.tile, Tile::Soil);
}

#[test]
fn drone_counts_a_visit_even_without_pickup() {
    let options = default_options();
    let mut world = flat_world();
    set_cell_at(&mut world, 1, 0, cell(Tile::Empty, Pickup::Expando, 6));
    let mut inv = create_inventory();
    move_drone_pickup_from_empty_tile(&options, &mut world, &mut inv, 1, 0);
    let c = get_stored_cell(&world, 1, 0);
    assert_eq!(c.pickup, Pickup::Expando);
    assert_eq!(c.pickup_value, 6);
    assert_eq!(c.visited, 1);
    assert_eq!(inv, create_inventory());
}

#[test]
fn drone_bumps_without_hammers() {
    let options = default_options();
    let mut world = flat_world();
    set_cell_at(&mut world, 1, 0, cell(Tile::Wall2, Pickup::Wood, 0));
    let mut drone = Movable { what: 4, x: 0, y: 0, dir: Direction::Right, disabled: false };
    let mut inv = create_inventory();
    let r = move_drone(&options, &mut world, &mut drone, &mut inv);
    assert!(r.bumped);
    assert!(!r.energy);
    assert_eq!(get_stored_cell(&world, 1, 0).tile, Tile::Wall1);
    assert_eq!((drone.x, drone.y), (0, 0));
    assert_eq!(inv.sand, 0);
}

#[test]
fn drone_steps_and_takes_energy() {
    let options = default_options();
    let mut world = flat_world();
    set_cell_at(&mut world, 0, 1, cell(Tile::Empty, Pickup::Energy, 0));
    let mut drone = Movable { what: 4, x: 0, y: 0, dir: Direction::Down, disabled: false };
    let mut inv = create_inventory();
    let r = move_drone(&options, &mut world, &mut drone, &mut inv);
    assert!(r.energy);
    assert_eq!((drone.x, drone.y), (0, 1));
    assert_eq!(inv.energy, 1);
}

#[test]
fn drone_harvests_ripe_soil() {
    let options = default_options();
    let mut world = flat_world();
    set_cell_at(&mut world, -1, 0, Cell { tile: Tile::Soil, tile_value: 3, pickup: Pickup::Nothing, pickup_value: 0, visited: 0 });
    set_cell_at(&mut world, -2, 0, Cell { tile: Tile::Soil, tile_value: 2, pickup: Pickup::Nothing, pickup_value: 0, visited: 0 });
    let mut drone = MeDrone { movable: Movable { what: 4, x: 0, y: 0, dir: Direction::Left, disabled: false } };
    let mut inv = create_inventory();
    let first = tick_me_drone(&options, &mut world, &mut drone, &mut inv);
    assert!(first.harvested);
    assert_eq!(inv.food, 1);
    assert_eq!(get_stored_cell(&world, -1, 0).tile_value, 0);
    let second = tick_me_drone(&options, &mut world, &mut drone, &mut inv);
    // soil of value 2 is reset but not ripe
    assert!(!second.harvested);
    assert_eq!(inv.food, 1);
    assert_eq!(get_stored_cell(&world, -2, 0).tile_value, 0);
}

#[test]
fn compass_points_at_the_most_wanted_pickup() {
    let options = default_options();
    let mut world = flat_world();
    set_cell_at(&mut world, -2, 1, cell(Tile::Empty, Pickup::Diamond, 0));
    set_cell_at(&mut world, 1, -2, cell(Tile::Empty, Pickup::Energy, 0));
    let (prio, dir) = jacks_compass(&options, &world, 0, 0).unwrap();
    assert_eq!(prio, 1000);
    // the energy is two up and one across: the larger distance is upwards
    assert_eq!(dir, Direction::Up);
}

#[test]
fn compass_with_nothing_around_does_nothing() {
    let options = default_options();
    let world = flat_world();
    assert_eq!(jacks_compass(&options, &world, 0, 0), None);
}

#[test]
fn compass_first_found_wins_a_tie() {
    let options = default_options();
    let mut world = flat_world();
    set_cell_at(&mut world, 0, -2, cell(Tile::Empty, Pickup::Wood, 0));
    set_cell_at(&mut world, -2, 1, cell(Tile::Empty, Pickup::Water, 0));
    let (prio, dir) = jacks_compass(&options, &world, 0, 0).unwrap();
    assert_eq!(prio, 20);
    // the wood straight above wins and the miner turns up towards it
    assert_eq!(dir, Direction::Up);
}

#[test]
fn expando_waits_for_its_speed() {
    let options = default_options();
    let mut world = flat_world();
    set_cell_at(&mut world, 0, 0, cell(Tile::ExpandoWater, Pickup::Expando, 0));
    world.expandos.push(create_expando(0, 0));
    tick_expando(0, &mut world, &options);
    assert_eq!(world.expandos[0].ticks_since_last_update, 1);
    assert_eq!(get_stored_cell(&world, 1, 0).tile, Tile::Empty);
}

#[test]
fn expando_spills_into_empty_neighbours() {
    let options = default_options();
    let mut world = flat_world();
    set_cell_at(&mut world, 0, 0, cell(Tile::ExpandoWater, Pickup::Expando, 0));
    let mut e = create_expando(0, 0);
    e.ticks_since_last_update = e.speed;
    world.expandos.push(e);
    tick_expando(0, &mut world, &options);
    let mut water = 0;
    for y in -5..6 {
        for x in -5..6 {
            if get_stored_cell(&world, x, y).tile == Tile::ExpandoWater {
                water += 1;
            }
        }
    }
    assert!(water > 1);
    assert!(water <= 1 + 10);
    assert_eq!(world.expandos[0].ticks_since_last_update, 0);
}

#[test]
fn fountain_keeps_its_pool_and_waits() {
    let options = default_options();
    let mut world = flat_world();
    set_cell_at(&mut world, 0, 0, cell(Tile::Fountain, Pickup::Fountain, 0));
    set_cell_at(&mut world, 1, 0, cell(Tile::ExpandoWater, Pickup::Nothing, 0));
    set_cell_at(&mut world, 2, 0, cell(Tile::ExpandoWater, Pickup::Nothing, 0));
    let f = create_fountain(0, 0, &world, &options);
    assert!(f.water_tiles.contains(&(1, 0)));
    assert!(f.water_tiles.contains(&(2, 0)));
    assert!(!f.water_tiles.contains(&(3, 0)));
    world.fountains.push(f);
    for _ in 0..100 {
        tick_fountain(0, &mut world, &options);
    }
    assert_eq!(world.fountains[0].ticks, 100);
    assert_eq!(get_stored_cell(&world, 1, 0).pickup, Pickup::Nothing);
    assert_eq!(get_stored_cell(&world, 2, 0).pickup, Pickup::Nothing);
    tick_fountain(0, &mut world, &options);
    assert_eq!(world.fountains[0].ticks, 0);
    let watered = [get_stored_cell(&world, 1, 0).pickup, get_stored_cell(&world, 2, 0).pickup];
    assert_eq!(watered.iter().filter(|p| **p == Pickup::Water).count(), 1);
}

#[test]
fn world_tick_ticks_every_fluid() {
    let options = default_options();
    let mut world = flat_world();
    set_cell_at(&mut world, 3, 3, cell(Tile::ExpandoWater, Pickup::Expando, 0));
    world.expandos.push(create_expando(3, 3));
    world.expandos.push(create_expando(3, 3));
    set_cell_at(&mut world, -3, -3, cell(Tile::Fountain, Pickup::Fountain, 0));
    let f = create_fountain(-3, -3, &world, &options);
    world.fountains.push(f);
    let pool = world.fountains[0].water_tiles.clone();
    for _ in 0..150 {
        assert!(tick_world(&options, &mut world));
    }
    // no expando or fountain comes or goes, and none moves
    assert_eq!(world.expandos.len(), 2);
    assert_eq!(world.fountains.len(), 1);
    assert_eq!((world.expandos[1].x, world.expandos[1].y), (3, 3));
    assert_eq!(world.fountains[0].water_tiles, pool);
}

#[test]
fn world_tick_ticks_each_fluid_once() {
    let options = default_options();
    let mut world = flat_world();
    set_cell_at(&mut world, 3, 3, cell(Tile::ExpandoWater, Pickup::Expando, 0));
    world.expandos.push(create_expando(3, 3));
    world.expandos.push(create_expando(3, 3));
    set_cell_at(&mut world, -3, -3, cell(Tile::Fountain, Pickup::Fountain, 0));
    let f = create_fountain(-3, -3, &world, &options);
    world.fountains.push(f);
    assert!(tick_world(&options, &mut world));
    assert_eq!(world.expandos[0].ticks_since_last_update, 1);
    assert_eq!(world.expandos[1].ticks_since_last_update, 1);
    assert_eq!(world.fountains[0].ticks, 1);
}

#[test]
fn fountain_whose_cell_is_gone_stops() {
    let options = default_options();
    let mut world = flat_world();
    set_cell_at(&mut world, 0, 0, cell(Tile::Fountain, Pickup::Fountain, 0));
    let f = create_fountain(0, 0, &world, &options);
    world.fountains.push(f);
    set_cell_at(&mut world, 0, 0, cell(Tile::Empty, Pickup::Nothing, 0));
    tick_fountain(0, &mut world, &options);
    assert!(world.fountains[0].disabled);
}
