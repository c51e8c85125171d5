use miners::breeding::{select_next, Selection};
use miners::camera::follow_offset;
use miners::slottable::{slot_kind_index, slot_layout, SlotKind};

#[test]
fn camera_centres_on_the_miner_when_asked() {
    assert_eq!(follow_offset(-25, 7, 51, 2, 10, true, false), 7 - 25);
    assert_eq!(follow_offset(-25, 7, 51, 2, 10, false, false), -25);
}

#[test]
fn camera_follows_a_miner_near_the_edges() {
    // the miner is one cell from the left edge: the edge moves to ten cells away
    assert_eq!(follow_offset(0, 1, 51, 2, 10, false, true), -9);
    // the miner is one cell from the right edge
    assert_eq!(follow_offset(0, 50, 51, 2, 10, false, true), 50 - 41);
    // well inside the viewport nothing moves
    assert_eq!(follow_offset(0, 20, 51, 2, 10, false, true), 0);
}

#[test]
fn selection_prefers_the_visible_biome_on_a_tie() {
    let points = vec![5, 9, 9, 3];
    let r = select_next(&points, 2, 4, true, false, 0, 0, 500);
    assert_eq!(r, Selection { winner: 2, new_best: true, from_winner: true, reset: false });
    let r = select_next(&points, 3, 4, true, false, 0, 0, 500);
    assert_eq!(r.winner, 1);
}

#[test]
fn selection_keeps_the_best_when_nothing_beats_it() {
    let points = vec![5, 9, 9, 3];
    let r = select_next(&points, 0, 9, true, false, 0, 0, 500);
    assert_eq!(r, Selection { winner: 1, new_best: false, from_winner: false, reset: false });
    let r = select_next(&points, 0, 9, false, false, 0, 0, 500);
    assert!(r.from_winner);
}

#[test]
fn selection_resets_after_too_many_miners() {
    let points = vec![1, 2];
    // counting since the last best
    assert!(select_next(&points, 0, 9, true, true, 501, 0, 500).reset);
    assert!(!select_next(&points, 0, 9, true, true, 500, 0, 500).reset);
    // a new best restarts that count
    assert!(!select_next(&points, 0, 0, true, true, 501, 0, 500).reset);
    // counting since the last start
    assert!(select_next(&points, 0, 9, true, false, 0, 501, 500).reset);
}

#[test]
fn slot_layout_counts_each_kind() {
    let mut kinds = [SlotKind::Emptiness; 32];
    kinds[0] = SlotKind::Hammer;
    kinds[3] = SlotKind::Hammer;
    kinds[5] = SlotKind::Drill;
    let layout = slot_layout(kinds);
    assert_eq!(layout.counts.len(), 12);
    assert_eq!(layout.nths[0], 0);
    assert_eq!(layout.nths[3], 1);
    assert_eq!(layout.nths[5], 0);
    assert_eq!(layout.nths[31], 28);
    assert_eq!(layout.counts[slot_kind_index(SlotKind::Hammer)], 2);
    assert_eq!(layout.counts[slot_kind_index(SlotKind::Drill)], 1);
    assert_eq!(layout.counts[slot_kind_index(SlotKind::Emptiness)], 29);
    assert_eq!(layout.counts[slot_kind_index(SlotKind::Sandrone)], 0);
}

#[test]
fn camera_follows_far_from_the_origin() {
    let big: i32 = 1 << 30;
    // the miner is at the near edge of a viewport far out: it moves back to the buffer
    assert_eq!(follow_offset(big - 40, big, 51, 2, 10, false, true), (big - 40) as i64);
    assert_eq!(follow_offset(big, big, 51, 2, 10, false, true), (big - 10) as i64);
    assert_eq!(follow_offset(i32::MAX - 60, i32::MAX, 51, 2, 10, false, true), (i32::MAX - 41) as i64);
    // a target beyond the 32-bit range is reported as it is
    assert_eq!(follow_offset(0, i32::MIN, 51, 2, 10, false, true), i32::MIN as i64 - 10);
}
