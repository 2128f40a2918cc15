use traffic_sim::geometry::{create_vehicle_vision, Rectangle};
use traffic_sim::vehicle::{Lane, State, TurnDirection, Vehicle};

fn in_center_box(v: &Vehicle) -> bool {
    v.bounds.x > 350000 && v.bounds.x < 450000 && v.bounds.y > 350000 && v.bounds.y < 450000
}

#[test]
fn spawn_is_deterministic_per_entrance() {
    let expected = [
        (0, 412500, 0, Lane::Left),
        (0, 437500, 0, Lane::Right),
        (387500, 0, 9000, Lane::Left),
        (362500, 0, 9000, Lane::Right),
        (800000, 387500, 18000, Lane::Left),
        (800000, 362500, 18000, Lane::Right),
        (412500, 800000, 27000, Lane::Left),
        (437500, 800000, 27000, Lane::Right),
    ];
    for (e, (x, y, d, lane)) in expected.iter().enumerate() {
        let a = Vehicle::with_turn_roll(1, 50, 10, 10, e as u32, 0);
        let b = Vehicle::with_turn_roll(2, 50, 10, 10, e as u32, 2);
        let c = Vehicle::new(3, 50, 10, 10, e as u32);
        for v in [a, b, c] {
            assert_eq!(v.bounds, Rectangle::new(*x, *y, 10, 10, *d));
            assert_eq!(v.direction, *d);
            assert_eq!(v.lane, *lane);
            assert_eq!(v.state(), State::Driving);
            assert_eq!(v.vision, create_vehicle_vision((*x, *y), *d, 20, 10));
            assert_eq!(v.entrance, e as u32);
        }
        assert_eq!(a.bounds, b.bounds);
        assert_eq!(b.turn(), TurnDirection::Straight);
        let own_side = if *lane == Lane::Left { TurnDirection::Left } else { TurnDirection::Right };
        assert_eq!(a.turn(), own_side);
        assert_eq!(Vehicle::with_turn_roll(1, 50, 10, 10, e as u32, 1).turn(), own_side);
        assert!(c.turn() == own_side || c.turn() == TurnDirection::Straight);
    }
}

#[test]
fn turn_radii_by_lane_and_turn() {
    assert_eq!(Vehicle::with_turn_roll(0, 50, 10, 10, 1, 0).get_turn_radius(), 12500);
    assert_eq!(Vehicle::with_turn_roll(0, 50, 10, 10, 0, 0).get_turn_radius(), 62500);
    assert_eq!(Vehicle::with_turn_roll(0, 50, 10, 10, 0, 2).get_turn_radius(), 0);
    let mut v = Vehicle::with_turn_roll(0, 50, 10, 10, 1, 0);
    v.turn = TurnDirection::Left;
    assert_eq!(v.get_turn_radius(), 87500);
    v.lane = Lane::Left;
    v.turn = TurnDirection::Right;
    assert_eq!(v.get_turn_radius(), 37500);
}

#[test]
fn driving_moves_along_heading_and_resets_speed() {
    let mut v = Vehicle::with_turn_roll(0, 50, 10, 10, 0, 0);
    v.update(10000);
    // 50 px/s for 10 ms is half a pixel.
    assert_eq!(v.bounds.x, 500);
    assert_eq!(v.bounds.y, 412500);
    assert_eq!(v.speed, 500);
    v.update(10000);
    assert_eq!(v.bounds.x, 5500);
    assert_eq!(v.vision, create_vehicle_vision((5500, 412500), 0, 20, 10));
    v.set_speed_override(None);
    v.speed = 100;
    v.update(10000);
    assert_eq!(v.bounds.x, 6500);
    assert_eq!(v.speed, 100);
}

#[test]
fn apply_turn_rotates_then_moves() {
    let mut v = Vehicle::with_turn_roll(0, 500, 10, 10, 1, 0);
    // Right lane, right turn: radius 12.5 px, 500 px/s for 10 ms is 0.4 rad, 22.92 degrees.
    v.apply_turn(12500, 10000);
    assert_eq!(v.direction, 2291);
    assert_eq!(v.bounds.direction, 2291);
    // Moved 5 px along 23 degrees.
    assert_eq!(v.bounds.x, 4602);
    assert_eq!(v.bounds.y, 437500 + 1953);
    let mut w = Vehicle::with_turn_roll(0, 500, 10, 10, 0, 0);
    w.apply_turn(62500, 10000);
    // Left turns lower the heading, wrapping below zero.
    assert_eq!(w.direction, 36000 - 458);
    let mut s = Vehicle::with_turn_roll(0, 500, 10, 10, 0, 2);
    s.apply_turn(0, 10000);
    assert_eq!(s.direction, 0);
    assert_eq!(s.bounds.x, 5000);
}

#[test]
fn quantize_direction_gives_quarter_turns() {
    let cases = [(0u32, 0u32), (4499, 0), (4500, 9000), (8999, 9000), (13600, 18000), (22499, 18000), (31400, 27000), (31500, 0), (35999, 0), (40, 0)];
    for (d, q) in cases {
        let mut v = Vehicle::with_turn_roll(0, 50, 10, 10, 0, 0);
        v.direction = d;
        v.bounds.direction = d;
        v.vision = create_vehicle_vision((v.bounds.x, v.bounds.y), d, 20, 10);
        v.quantize_direction();
        assert_eq!(v.direction, q);
        assert_eq!(v.bounds.direction, q);
        assert!(q % 9000 == 0 && q < 36000);
    }
}

#[test]
fn check_bounds_detects_leaving_the_world() {
    let mut v = Vehicle::with_turn_roll(0, 50, 10, 10, 0, 0);
    assert!(!v.check_bounds());
    v.bounds.x = -1;
    assert!(v.check_bounds());
    v.bounds.x = 800000;
    assert!(!v.check_bounds());
    v.bounds.x = 800001;
    assert!(v.check_bounds());
    v.bounds.x = 10;
    v.bounds.y = 800001;
    assert!(v.check_bounds());
}

fn run_single_vehicle(entrance: u32, roll: u64) -> (usize, usize, u32) {
    let mut v = Vehicle::with_turn_roll(0, 50, 10, 10, entrance, roll);
    let mut to_turning = 0;
    let mut to_driving = 0;
    let mut ticks = 0;
    while !v.check_bounds() && ticks < 100000 {
        let before = v.state();
        let was_inside = in_center_box(&v);
        v.update(10000);
        let after = v.state();
        if before == State::Driving && after == State::Turning {
            to_turning += 1;
            assert!(!was_inside);
            assert!(in_center_box(&v));
        }
        if before == State::Turning && after == State::Driving {
            to_driving += 1;
            assert!(!in_center_box(&v));
            assert_eq!(v.direction % 9000, 0);
        }
        ticks += 1;
    }
    assert!(v.check_bounds());
    (to_turning, to_driving, v.direction)
}

#[test]
fn single_vehicle_turns_once() {
    for roll in 0..3u64 {
        let (to_turning, to_driving, direction) = run_single_vehicle(0, roll);
        assert_eq!(to_turning, 1);
        assert_eq!(to_driving, 1);
        assert!(direction == 0 || direction == 9000 || direction == 18000 || direction == 27000);
    }
    // Going straight keeps the heading.
    assert_eq!(run_single_vehicle(0, 2).2, 0);
}
