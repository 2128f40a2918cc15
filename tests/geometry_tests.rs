use traffic_sim::geometry::{create_vehicle_vision, floor_div, rectangles_intersect, Rectangle};
use traffic_sim::trig::cos_sin;

fn aabb(a: &Rectangle, b: &Rectangle) -> bool {
    let (ahw, ahh) = (a.width as i64 * 500, a.height as i64 * 500);
    let (bhw, bhh) = (b.width as i64 * 500, b.height as i64 * 500);
    a.x - ahw <= b.x + bhw && b.x - bhw <= a.x + ahw && a.y - ahh <= b.y + bhh && b.y - bhh <= a.y + ahh
}

#[test]
fn axis_aligned_rectangles_match_bounding_boxes() {
    let cases = [
        (Rectangle::new(0, 0, 10, 10, 0), Rectangle::new(5000, 5000, 10, 10, 0)),
        (Rectangle::new(0, 0, 10, 10, 0), Rectangle::new(20000, 0, 10, 10, 0)),
        (Rectangle::new(0, 0, 10, 4, 0), Rectangle::new(0, 4000, 2, 4, 0)),
        (Rectangle::new(0, 0, 10, 4, 0), Rectangle::new(0, 4001, 2, 4, 0)),
        (Rectangle::new(100000, 50000, 1, 50, 0), Rectangle::new(99000, 74000, 20, 10, 0)),
        (Rectangle::new(-30000, 7000, 30, 6, 0), Rectangle::new(-1000, 7000, 28, 2, 0)),
        (Rectangle::new(-30000, 7000, 30, 6, 0), Rectangle::new(-999, 7000, 28, 1, 0)),
    ];
    for (a, b) in cases.iter() {
        assert_eq!(rectangles_intersect(a, b), aabb(a, b));
        assert_eq!(rectangles_intersect(b, a), aabb(a, b));
    }
    assert!(rectangles_intersect(&cases[0].0, &cases[0].1));
    assert!(!rectangles_intersect(&cases[1].0, &cases[1].1));
    assert!(rectangles_intersect(&cases[2].0, &cases[2].1));
    assert!(!rectangles_intersect(&cases[3].0, &cases[3].1));
}

#[test]
fn translated_copy_intersects_until_extents_meet() {
    let r = Rectangle::new(400000, 300000, 10, 6, 0);
    // Half extents along the width: 5 px each, 10 px together.
    for t in [0i64, 1, 9999, 10000] {
        assert!(rectangles_intersect(&r, &Rectangle { x: r.x + t, ..r }));
        assert!(rectangles_intersect(&r, &Rectangle { x: r.x - t, ..r }));
    }
    for t in [10001i64, 20000] {
        assert!(!rectangles_intersect(&r, &Rectangle { x: r.x + t, ..r }));
    }
    // Across the width: 3 px each, 6 px together.
    assert!(rectangles_intersect(&r, &Rectangle { y: r.y + 6000, ..r }));
    assert!(!rectangles_intersect(&r, &Rectangle { y: r.y + 6001, ..r }));
}

#[test]
fn rotated_rectangles_use_both_sets_of_axes() {
    // A square turned by 45 degrees reaches about 7.07 px from its center.
    let diamond = Rectangle::new(0, 0, 10, 10, 4500);
    assert!(rectangles_intersect(&diamond, &Rectangle::new(11000, 0, 10, 10, 0)));
    assert!(!rectangles_intersect(&diamond, &Rectangle::new(12200, 0, 10, 10, 0)));
    // Corner to corner: the boxes' x and y extents overlap but the diamond's
    // edge normal separates them.
    assert!(!rectangles_intersect(&diamond, &Rectangle::new(9000, 9000, 10, 10, 0)));
    // A quarter turn swaps width and height.
    let long = Rectangle::new(0, 0, 40, 2, 9000);
    assert!(rectangles_intersect(&long, &Rectangle::new(0, 19000, 2, 2, 0)));
    assert!(!rectangles_intersect(&long, &Rectangle::new(19000, 0, 2, 2, 0)));
}

#[test]
fn trig_table_values() {
    assert_eq!(cos_sin(0), (1000000, 0));
    assert_eq!(cos_sin(9000), (0, 1000000));
    assert_eq!(cos_sin(18000), (-1000000, 0));
    assert_eq!(cos_sin(27000), (0, -1000000));
    assert_eq!(cos_sin(3000), (866025, 500000));
    // Rounded to the nearest degree.
    assert_eq!(cos_sin(4449), cos_sin(4400));
    assert_eq!(cos_sin(4450), cos_sin(4500));
    assert_eq!(cos_sin(35990), (1000000, 0));
}

#[test]
fn floor_division_rounds_down() {
    assert_eq!(floor_div(7, 2), 3);
    assert_eq!(floor_div(-7, 2), -4);
    assert_eq!(floor_div(-8, 2), -4);
    assert_eq!(floor_div(0, 5), 0);
    assert_eq!(floor_div(-1, 1000000), -1);
}

#[test]
fn vision_sits_half_its_length_ahead() {
    let v = create_vehicle_vision((100000, 200000), 0, 20, 10);
    assert_eq!(v, Rectangle::new(110000, 200000, 20, 10, 0));
    let v = create_vehicle_vision((100000, 200000), 18000, 20, 10);
    assert_eq!(v, Rectangle::new(90000, 200000, 20, 10, 18000));
    let v = create_vehicle_vision((100000, 200000), 27000, 20, 10);
    assert_eq!(v, Rectangle::new(100000, 190000, 20, 10, 27000));
}

#[test]
fn rotated_copy_intersects_until_extents_meet() {
    // Heading 30 degrees; a copy moved 10 px along the heading touches.
    let r = Rectangle::new(400000, 300000, 10, 4, 3000);
    assert!(rectangles_intersect(&r, &Rectangle { x: r.x + 8660, y: r.y + 5000, ..r }));
    assert!(rectangles_intersect(&r, &Rectangle { x: r.x - 4330, y: r.y - 2500, ..r }));
    assert!(!rectangles_intersect(&r, &Rectangle { x: r.x + 8670, y: r.y + 5006, ..r }));
    // Across the heading the sum of half heights is 4 px.
    assert!(rectangles_intersect(&r, &Rectangle { x: r.x - 1999, y: r.y + 3463, ..r }));
    assert!(!rectangles_intersect(&r, &Rectangle { x: r.x - 2010, y: r.y + 3480, ..r }));
}
