use iced_drop::geometry::{Point, Rectangle, Vector};

fn rect(x: i32, y: i32, width: u32, height: u32) -> Rectangle {
    Rectangle { x, y, width, height }
}

#[test]
fn area_is_width_times_height() {
    assert_eq!(rect(3, 4, 5, 7).area(), 35);
    assert_eq!(rect(0, 0, 0, 9).area(), 0);
}

#[test]
fn area_of_the_largest_rectangle_fits() {
    let all = rect(i32::MIN, i32::MIN, u32::MAX, u32::MAX);
    assert_eq!(all.area(), 18446744065119617025);
}

#[test]
fn contains_leaves_out_right_and_bottom_edges() {
    let r = rect(10, 20, 5, 5);
    assert!(r.contains(Point { x: 10, y: 20 }));
    assert!(r.contains(Point { x: 14, y: 24 }));
    assert!(!r.contains(Point { x: 15, y: 20 }));
    assert!(!r.contains(Point { x: 10, y: 25 }));
    assert!(!r.contains(Point { x: 9, y: 20 }));
}

#[test]
fn contains_at_the_edge_of_the_coordinate_range() {
    let r = rect(i32::MAX - 1, 0, 10, 1);
    assert!(r.contains(Point { x: i32::MAX, y: 0 }));
    assert!(!r.contains(Point { x: i32::MAX - 2, y: 0 }));
}

#[test]
fn intersection_of_overlapping_rectangles() {
    let a = rect(0, 0, 10, 10);
    let b = rect(5, 6, 10, 10);
    assert_eq!(a.intersection(&b), rect(5, 6, 5, 4));
    assert_eq!(b.intersection(&a), rect(5, 6, 5, 4));
    assert_eq!(a.overlap_area(&b), 20);
}

#[test]
fn intersection_of_disjoint_rectangles_is_empty() {
    let a = rect(0, 0, 10, 10);
    let b = rect(20, 0, 10, 10);
    assert_eq!(a.intersection(&b), Rectangle::empty());
    assert_eq!(a.intersection(&b), rect(0, 0, 0, 0));
    assert_eq!(a.overlap_area(&b), 0);
    assert!(!a.intersects(&b));
}

#[test]
fn rectangles_that_only_touch_do_not_intersect() {
    let a = rect(0, 0, 10, 10);
    let b = rect(10, 0, 10, 10);
    assert!(!a.intersects(&b));
    assert_eq!(a.overlap_area(&b), 0);
    let c = rect(9, 9, 10, 10);
    assert!(a.intersects(&c));
    assert_eq!(a.overlap_area(&c), 1);
}

#[test]
fn intersection_with_negative_coordinates() {
    let a = rect(-10, -10, 15, 15);
    let b = rect(-5, -20, 100, 12);
    assert_eq!(a.intersection(&b), rect(-5, -10, 10, 2));
}

#[test]
fn intersection_of_nested_rectangles_is_the_inner_one() {
    let outer = rect(-100, -100, 1000, 1000);
    let inner = rect(1, 2, 3, 4);
    assert_eq!(outer.intersection(&inner), inner);
    assert_eq!(inner.intersection(&outer), inner);
}

#[test]
fn minus_moves_against_the_translation() {
    let r = rect(100, 50, 7, 8);
    let moved = r.minus(&Vector { x: 30, y: -20 });
    assert_eq!(moved, rect(70, 70, 7, 8));
}

#[test]
fn can_minus_tells_when_the_result_fits() {
    let r = rect(i32::MIN, 0, 1, 1);
    assert!(!r.can_minus(&Vector { x: 1, y: 0 }));
    assert!(r.can_minus(&Vector { x: 0, y: 0 }));
    assert!(r.can_minus(&Vector { x: -1, y: i32::MAX }));
    assert!(!rect(0, 0, 1, 1).can_minus(&Vector { x: i32::MIN, y: 0 }));
}

#[test]
fn plus_adds_componentwise() {
    let a = Vector { x: 3, y: -4 };
    let b = Vector { x: 10, y: 20 };
    assert_eq!(a.plus(&b), Vector { x: 13, y: 16 });
    assert_eq!(Vector::zero().plus(&a), a);
}

#[test]
fn can_plus_tells_when_the_sum_fits() {
    let a = Vector { x: i32::MAX, y: 0 };
    assert!(!a.can_plus(&Vector { x: 1, y: 0 }));
    assert!(a.can_plus(&Vector { x: -1, y: 0 }));
    assert!(!Vector { x: 0, y: i32::MIN }.can_plus(&Vector { x: 0, y: -1 }));
}
