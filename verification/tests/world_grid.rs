use miners::cell::Cell;
use miners::movable::drill_deeper;
use miners::options::default_options;
use miners::pickup::Pickup;
use miners::tile::Tile;
use miners::world::{
    bound_inc, coord_to_index, create_unvisited_cell, create_visited_cell, ensure_cell_in_world, generate_cell,
    generate_world, get_cell_pickup_at, get_cell_stuff_at, get_cell_tile_at, get_cell_tile_value_at, get_stored_cell,
    oob, set_cell_pickup_at, set_cell_pickup_value_at, set_cell_tile_at, set_cell_tile_value_at, world_height,
    world_width,
};

#[test]
fn generated_cells_depend_only_on_seed_and_coordinates() {
    let options = default_options();
    for y in -6..6 {
        for x in -6..6 {
            assert_eq!(generate_cell(&options, x, y), generate_cell(&options, x, y));
        }
    }
}

#[test]
fn generated_world_is_not_uniform() {
    let options = default_options();
    let first = generate_cell(&options, 100, 100);
    let mut differs = false;
    let mut tiles = 0;
    for y in 100..130 {
        for x in 100..130 {
            let c = generate_cell(&options, x, y);
            if c != first {
                differs = true;
            }
            if c.tile != Tile::Empty {
                tiles += 1;
            }
        }
    }
    assert!(differs);
    assert!(tiles > 0);
}

#[test]
fn another_seed_gives_another_world() {
    let a = default_options();
    let mut b = default_options();
    b.seed = 20220314;
    let mut differs = false;
    for y in 0..20 {
        for x in 0..20 {
            if generate_cell(&a, x, y) != generate_cell(&b, x, y) {
                differs = true;
            }
        }
    }
    assert!(differs);
}

#[test]
fn generated_cells_follow_the_rules() {
    let options = default_options();
    for y in -40..40 {
        for x in -40..40 {
            let c = generate_cell(&options, x, y);
            assert_eq!(c.visited, 0);
            assert!(c.pickup != Pickup::Fountain && c.pickup != Pickup::Water);
            match c.tile {
                Tile::Empty => assert!(matches!(c.pickup, Pickup::Nothing | Pickup::Energy | Pickup::Wind)),
                Tile::Wall1 | Tile::Wall2 | Tile::Wall3 => {
                    assert!(c.tile_value <= 2);
                    if c.pickup == Pickup::Expando {
                        assert!(c.pickup_value >= 5 && c.pickup_value <= 10);
                    } else {
                        assert_eq!(c.pickup_value, c.tile_value);
                    }
                },
                _ => panic!("unexpected generated tile {:?}", c.tile),
            }
        }
    }
}

#[test]
fn new_world_stores_eleven_by_eleven_with_empty_origin() {
    let options = default_options();
    let world = generate_world(&options);
    assert_eq!((world.min_x, world.min_y, world.max_x, world.max_y), (-5, -5, 5, 5));
    assert_eq!(world_width(&world), 11);
    assert_eq!(world_height(&world), 11);
    assert!(world.expandos.is_empty());
    assert!(world.fountains.is_empty());
    let origin = get_stored_cell(&world, 0, 0);
    assert_eq!(origin, Cell { tile: Tile::Empty, tile_value: 0, pickup: Pickup::Nothing, pickup_value: 0, visited: 0 });
    assert_eq!(get_stored_cell(&world, 3, -2), generate_cell(&options, 3, -2));
    assert_eq!(get_stored_cell(&world, -5, 5), generate_cell(&options, -5, 5));
}

#[test]
fn growing_the_world_shows_the_same_cells() {
    let options = default_options();
    let mut world = generate_world(&options);
    set_cell_tile_at(&options, &mut world, 2, 2, Tile::Push);
    let mut before = vec![];
    for y in -12..12 {
        for x in -12..12 {
            before.push(get_cell_stuff_at(&options, &world, x, y));
        }
    }
    ensure_cell_in_world(&mut world, &options, -9, 11);
    assert_eq!((world.min_x, world.min_y, world.max_x, world.max_y), (-9, -5, 5, 11));
    let mut i = 0;
    for y in -12..12 {
        for x in -12..12 {
            let (t, p, v, _) = get_cell_stuff_at(&options, &world, x, y);
            let (t0, p0, v0, _) = before[i];
            assert_eq!((t, p, v), (t0, p0, v0));
            i += 1;
        }
    }
    assert_eq!(get_cell_tile_at(&options, &world, 2, 2), Tile::Push);
}

#[test]
fn growing_to_a_stored_cell_changes_nothing() {
    let options = default_options();
    let mut world = generate_world(&options);
    ensure_cell_in_world(&mut world, &options, 1, -1);
    assert_eq!((world.min_x, world.min_y, world.max_x, world.max_y), (-5, -5, 5, 5));
}

#[test]
fn reads_give_back_what_was_written() {
    let options = default_options();
    let mut world = generate_world(&options);
    set_cell_tile_at(&options, &mut world, -1, 4, Tile::Impassible);
    set_cell_tile_value_at(&options, &mut world, -1, 4, 7);
    set_cell_pickup_at(&options, &mut world, -1, 4, Pickup::Wood);
    set_cell_pickup_value_at(&options, &mut world, -1, 4, 3);
    assert_eq!(get_cell_tile_at(&options, &world, -1, 4), Tile::Impassible);
    assert_eq!(get_cell_tile_value_at(&options, &world, -1, 4), 7);
    assert_eq!(get_cell_pickup_at(&options, &world, -1, 4), Pickup::Wood);
    assert_eq!(get_stored_cell(&world, -1, 4).pickup_value, 3);
    // the neighbour is untouched
    assert_eq!(get_stored_cell(&world, 0, 4), generate_cell(&options, 0, 4));
}

#[test]
fn hidden_world_reads_as_hidden() {
    let mut options = default_options();
    let world = generate_world(&options);
    options.hide_world_oob = true;
    assert_eq!(get_cell_tile_at(&options, &world, 50, 50), Tile::HideWorld);
    assert_eq!(get_cell_tile_at(&options, &world, 0, 0), Tile::Empty);
    options.hide_world_oob = false;
    options.hide_world_ib = true;
    assert_eq!(get_cell_tile_at(&options, &world, 0, 0), Tile::HideWorld);
}

#[test]
fn unstored_cells_read_as_generated_and_unvisited() {
    let options = default_options();
    let world = generate_world(&options);
    let g = generate_cell(&options, 30, -30);
    assert_eq!(get_cell_stuff_at(&options, &world, 30, -30), (g.tile, g.pickup, g.tile_value, 0));
}

#[test]
fn rectangle_tests_are_inclusive() {
    assert!(!oob(0, 0, 0, 0, 0, 0));
    assert!(oob(1, 0, 0, 0, 0, 0));
    assert!(oob(-3, 2, -2, -2, 2, 2));
    assert!(bound_inc(2, -2, -2, -2, 2, 2));
    assert!(!bound_inc(2, 3, -2, -2, 2, 2));
}

#[test]
fn coordinates_are_measured_from_the_edges() {
    let options = default_options();
    let world = generate_world(&options);
    // the distance from the left and top edges
    assert_eq!(coord_to_index(-5, -5, &world), (0, 0));
    assert_eq!(coord_to_index(2, -1, &world), (7, 4));
}

#[test]
fn cells_are_created_as_given() {
    let c = create_unvisited_cell(Tile::Wall2, Pickup::Stone, 1, 1);
    assert_eq!(c.visited, 0);
    assert_eq!(c.tile, Tile::Wall2);
    let v = create_visited_cell(Tile::Soil, Pickup::Nothing, 0, 0, 9);
    assert_eq!(v.visited, 9);
}

#[test]
fn drilling_starts_from_any_cell() {
    let options = default_options();
    let mut world = generate_world(&options);
    ensure_cell_in_world(&mut world, &options, 11, 0);
    set_cell_tile_at(&options, &mut world, 11, 0, Tile::Wall4);
    let max_x = world.max_x;
    // the bumped cell (12, 0) is not stored; the drill goes left into (11, 0)
    drill_deeper(1, 3, 12, 0, -1, 0, &mut world, &options);
    assert_eq!(get_cell_tile_at(&options, &world, 11, 0), Tile::Wall2);
    assert_eq!(get_stored_cell(&world, 11, 0).visited, 0);
    assert_eq!(world.max_x, max_x);
}

#[test]
fn drilling_without_drills_or_hammers_does_nothing() {
    let options = default_options();
    let mut world = generate_world(&options);
    let before = (world.min_x, world.min_y, world.max_x, world.max_y, world.tiles.clone());
    drill_deeper(0, 5, 100, 100, 1, 0, &mut world, &options);
    drill_deeper(3, 1, 100, 100, 1, 0, &mut world, &options);
    assert_eq!((world.min_x, world.min_y, world.max_x, world.max_y, world.tiles.clone()), before);
}
