use miners::drone_san::{create_sandrone, move_sandrone_towards, set_sandrone_state, SandroneState};
use miners::drone_win::{
    create_windrone, find_closest_expando, move_windrone_towards, set_windrone_state, WindroneState,
};
use miners::expando::create_expando;

#[test]
fn new_drones_wait_at_the_origin_unbuilt() {
    let w = create_windrone();
    assert_eq!(w.state, WindroneState::Unconstructed);
    assert_eq!((w.movable.x, w.movable.y), (0, 0));
    let s = create_sandrone();
    assert_eq!(s.state, SandroneState::Unconstructed);
    assert!(!s.air_lifting && !s.air_lifted);
    assert_eq!(s.post_castle, 0);
    assert!(s.push_tiles.is_empty());
    assert_eq!(s.direction_cycle.len(), 4);
}

#[test]
fn state_changes_describe_the_new_state() {
    let mut w = create_windrone();
    let idle = w.status_desc.clone();
    set_windrone_state(&mut w, WindroneState::FlyingToGoal);
    assert_eq!(w.state, WindroneState::FlyingToGoal);
    assert_ne!(w.status_desc, idle);
    let mut s = create_sandrone();
    let idle = s.status_desc.clone();
    set_sandrone_state(&mut s, SandroneState::MovingToOrigin);
    assert_eq!(s.state, SandroneState::MovingToOrigin);
    assert_ne!(s.status_desc, idle);
}

#[test]
fn drones_fly_along_the_longer_axis() {
    let mut w = create_windrone();
    assert!(!move_windrone_towards(&mut w, 3, 1));
    assert_eq!((w.movable.x, w.movable.y), (1, 0));
    // on a tie they move along y
    assert!(!move_windrone_towards(&mut w, 3, 2));
    assert_eq!((w.movable.x, w.movable.y), (1, 1));
    let mut s = create_sandrone();
    assert!(!move_sandrone_towards(&mut s, -1, -4, 0));
    assert_eq!((s.movable.x, s.movable.y), (0, -1));
}

#[test]
fn a_drone_that_arrived_stays_put() {
    let mut w = create_windrone();
    assert!(move_windrone_towards(&mut w, 0, 0));
    assert_eq!((w.movable.x, w.movable.y), (0, 0));
    let mut s = create_sandrone();
    assert!(move_sandrone_towards(&mut s, 0, 0, 3));
    assert_eq!((s.movable.x, s.movable.y), (0, 0));
}

#[test]
fn closest_active_expando_is_found() {
    let mut far = create_expando(3, 3);
    far.disabled = false;
    let near = create_expando(-2, 0);
    let mut off = create_expando(0, 1);
    off.disabled = true;
    let list = vec![far, near, off];
    let c = find_closest_expando(&list, 0, 0);
    assert!(c.found);
    assert_eq!(c.index, 1);
    assert_eq!((c.x, c.y), (-2, 0));
    assert_eq!(c.dist, Some(4));
    let none = find_closest_expando(&vec![off], 0, 0);
    assert!(!none.found);
}
