use miners::inventory::{create_inventory, get_points};
use miners::movable::{
    coord_back, coord_bl, coord_br, coord_fl, coord_fr, coord_forward, coord_left, coord_lr, coord_right, delta_back,
    delta_bl, delta_br, delta_fl, delta_fr, delta_forward, delta_left, delta_lr, delta_right, dir_to_move_delta,
    turn_back, turn_left, turn_lr, turn_right, Direction,
};
use miners::pickup::{pickup_to_priority, pickup_to_string, Pickup};
use miners::slottable::{
    assert_size, create_slot_kind_counter, short_string_to_slots, slot_kind_index, slot_type_to_symbol,
    slots_to_short_string, symbol_to_slot_type, SlotKind,
};
use miners::tile::{cell_to_uncolored_string, Tile};
use miners::trie::{base_radix, Base, Trie};

const ALL_DIRS: [Direction; 4] = [Direction::Up, Direction::Right, Direction::Down, Direction::Left];

#[test]
fn left_and_right_turns_undo_each_other() {
    for d in ALL_DIRS {
        assert_eq!(turn_left(turn_right(d)), d);
        assert_eq!(turn_right(turn_left(d)), d);
        assert_eq!(turn_back(turn_back(d)), d);
        assert_eq!(turn_left(turn_left(d)), turn_back(d));
        assert_eq!(turn_lr(d, true), turn_left(d));
        assert_eq!(turn_lr(d, false), turn_right(d));
    }
    assert_eq!(turn_left(Direction::Up), Direction::Left);
    assert_eq!(turn_right(Direction::Up), Direction::Right);
}

#[test]
fn forward_steps_are_unit_steps() {
    assert_eq!(dir_to_move_delta(Direction::Up), (0, -1));
    assert_eq!(dir_to_move_delta(Direction::Right), (1, 0));
    assert_eq!(dir_to_move_delta(Direction::Down), (0, 1));
    assert_eq!(dir_to_move_delta(Direction::Left), (-1, 0));
    for d in ALL_DIRS {
        assert_eq!(delta_forward(d), dir_to_move_delta(d));
        let (fx, fy) = delta_forward(d);
        assert_eq!(delta_back(d), (-fx, -fy));
        assert_eq!(delta_left(d), (fy, -fx));
        assert_eq!(delta_right(d), (-fy, fx));
        assert_eq!(delta_lr(d, true), delta_left(d));
        assert_eq!(delta_lr(d, false), delta_right(d));
    }
}

#[test]
fn back_undoes_forward() {
    for d in ALL_DIRS {
        let (x, y) = coord_forward(3, -7, d);
        assert_eq!(coord_back(x, y, d), (3, -7));
        let (lx, ly) = coord_left(3, -7, d);
        assert_eq!(coord_right(lx, ly, d), (3, -7));
        assert_eq!(coord_lr(3, -7, d, true), coord_left(3, -7, d));
    }
}

#[test]
fn diagonals_around_a_cell() {
    assert_eq!(coord_fl(0, 0, Direction::Up), (-1, -1));
    assert_eq!(coord_fr(0, 0, Direction::Up), (1, -1));
    assert_eq!(coord_br(0, 0, Direction::Up), (1, 1));
    assert_eq!(coord_bl(0, 0, Direction::Up), (-1, 1));
    assert_eq!(coord_bl(0, 0, Direction::Right), (-1, -1));
    assert_eq!(coord_bl(0, 0, Direction::Down), (1, -1));
    assert_eq!(coord_bl(0, 0, Direction::Left), (1, 1));
    assert_eq!(delta_fl(Direction::Up), (-1, -1));
    assert_eq!(delta_fr(Direction::Up), (1, -1));
    assert_eq!(delta_bl(Direction::Right), (-1, -1));
    assert_eq!(delta_br(Direction::Up), (1, 1));
}

#[test]
fn slot_codes_round_trip() {
    let kinds = [
        SlotKind::BrokenGps,
        SlotKind::Windrone,
        SlotKind::Drill,
        SlotKind::DroneLauncher,
        SlotKind::Emptiness,
        SlotKind::EnergyCell,
        SlotKind::Hammer,
        SlotKind::JacksCompass,
        SlotKind::Magnet,
        SlotKind::PurityScanner,
        SlotKind::RandomStart,
        SlotKind::Sandrone,
    ];
    for k in kinds {
        let sym = slot_type_to_symbol(&k);
        assert_eq!(sym.chars().count(), 1);
        assert_eq!(symbol_to_slot_type(sym.chars().next().unwrap()), k);
    }
    assert_eq!(slot_type_to_symbol(&SlotKind::Windrone), "B");
    assert_eq!(slot_kind_index(SlotKind::Sandrone), 11);
    assert_eq!(assert_size(&SlotKind::Hammer), 12);
    assert_eq!(create_slot_kind_counter(), vec![0; 12]);
}

#[test]
fn slot_layout_strings_round_trip() {
    let code = "..DDDDDDDDd.h.dd.EEE.JJJEP.EdPhh";
    let slots = short_string_to_slots(code.to_string());
    assert_eq!(slots[2], SlotKind::DroneLauncher);
    assert_eq!(slots[10], SlotKind::Drill);
    assert_eq!(slots[12], SlotKind::Hammer);
    assert_eq!(slots[31], SlotKind::Hammer);
    assert_eq!(slots_to_short_string(slots), code);
}

#[test]
fn points_count_as_the_game_counts_them() {
    let mut inv = create_inventory();
    assert_eq!(get_points(&inv), 0);
    inv.stone_white = 2;
    inv.stone_blue = 1;
    inv.stone_green = 7;
    inv.stone_yellow = 1;
    inv.diamond_white = 1;
    inv.diamond_blue = 1;
    inv.diamond_green = 1;
    inv.diamond_yellow = 1;
    // green stones score nothing, a yellow stone scores 10 + 50
    assert_eq!(get_points(&inv), 2 + 5 + 60 + 100 + 250 + 500 + 1000);
}

#[test]
fn pickups_have_priorities_and_glyphs() {
    assert_eq!(pickup_to_priority(Pickup::Energy), 1000);
    assert_eq!(pickup_to_priority(Pickup::Diamond), 100);
    assert_eq!(pickup_to_priority(Pickup::Wood), 20);
    assert_eq!(pickup_to_priority(Pickup::Stone), 1);
    assert_eq!(pickup_to_priority(Pickup::Nothing), 0);
    assert_eq!(pickup_to_string(Pickup::Nothing, 0, 0), "  ");
    assert_eq!(pickup_to_string(Pickup::Wind, 4, 4), pickup_to_string(Pickup::Wind, -9, 2));
}

#[test]
fn trie_reads_back_what_was_written() {
    let mut trie = Trie::new();
    assert_eq!(trie.read("1-2-", false), 0);
    trie.write("1-2-", 5, false, false);
    assert_eq!(trie.read("1-2-", false), 5);
    assert_eq!(trie.read("1-3-", false), 0);
    assert_eq!(trie.read("1-", false), 0);
    trie.write("1-2-3-", 9, false, false);
    assert_eq!(trie.read("1-2-", false), 5);
    assert_eq!(trie.read("1-2-3-", false), 9);
    trie.write("1-2-", 6, true, false);
    assert_eq!(trie.read("1-2-", false), 6);
    assert_eq!(trie.read("1-2-3-", false), 9);
}

#[test]
fn trie_grows_one_node_per_new_trail_byte() {
    let mut trie = Trie::new();
    assert_eq!(trie.nodes.len(), 1);
    assert_eq!(trie.nodes[0], [0usize; 10]);
    trie.write("0-0-", 7, false, false);
    assert_eq!(trie.nodes.len(), 5);
    assert_eq!(trie.read("0-0-", false), 7);
    assert_eq!(trie.read("0-", false), 0);
    // two bytes are shared with the first trail
    trie.write("0-1-", 3, false, false);
    assert_eq!(trie.nodes.len(), 7);
    // the same write again changes nothing
    let before = trie.nodes.clone();
    trie.write("0-1-", 3, true, false);
    assert_eq!(trie.nodes, before);
}

#[test]
fn trails_are_written_in_octal() {
    let trie = Trie::new();
    assert_eq!(trie.path_to_trail(&vec![], false), "");
    assert_eq!(trie.path_to_trail(&vec![(1, 2)], false), "1-2-");
    assert_eq!(trie.path_to_trail(&vec![(8, 0), (-1, 63)], false), "10-0-37777777777-77-");
}

#[test]
fn a_trail_of_a_path_can_be_stored() {
    let mut trie = Trie::new();
    let trail = trie.path_to_trail(&vec![(3, -2), (4, 4)], false);
    trie.write(&trail, 42, false, false);
    assert_eq!(trie.read(&trail, false), 42);
}

#[test]
fn radix_of_bases() {
    assert_eq!(base_radix(&Base::Octal), 8);
    assert_eq!(base_radix(&Base::Decimal), 10);
    assert_eq!(base_radix(&Base::Hex), 16);
}

#[test]
fn plain_tiles_paint_anywhere() {
    assert_eq!(cell_to_uncolored_string(Tile::Soil, Pickup::Nothing, 0, i32::MIN, i32::MIN), "  ");
    assert_eq!(cell_to_uncolored_string(Tile::Wall4, Pickup::Nothing, 3, 1, 2), "██");
    assert_eq!(cell_to_uncolored_string(Tile::Push, Pickup::Nothing, 0, i32::MIN, 5), "░ ");
    assert_eq!(
        cell_to_uncolored_string(Tile::Empty, Pickup::Wind, 0, 4, 4),
        pickup_to_string(Pickup::Wind, 4, 4)
    );
}

#[test]
fn trails_tell_paths_apart() {
    let trie = Trie::new();
    let a = trie.path_to_trail(&vec![(1, 12)], false);
    let b = trie.path_to_trail(&vec![(11, 2)], false);
    let c = trie.path_to_trail(&vec![(1, 1), (2, 2)], false);
    let d = trie.path_to_trail(&vec![(11, 22)], false);
    assert_ne!(a, b);
    assert_ne!(c, d);
    assert_eq!(c.matches('-').count(), 4);
    assert_eq!(d.matches('-').count(), 2);
}
