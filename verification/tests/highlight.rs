use iced_drop::geometry::Rectangle;
use iced_drop::highlight::{
    biggest_intersect_area, dragged, dropped, resolve, should_update_droppable, zone_update,
    zones_found, Highlight, ZoneUpdate,
};
use iced_drop::tree::{TreeElement, TreeLocation};

fn rect(x: i32, y: i32, width: u32, height: u32) -> Rectangle {
    Rectangle { x, y, width, height }
}

fn item(slot: usize, index: usize) -> TreeLocation {
    TreeLocation::new(slot, TreeElement::Todo(index))
}

fn list(slot: usize) -> TreeLocation {
    TreeLocation::new(slot, TreeElement::List)
}

fn slot(slot: usize) -> TreeLocation {
    TreeLocation::new(slot, TreeElement::Slot)
}

fn hovering(hovered: Option<TreeLocation>) -> Highlight {
    Highlight { dragging: None, hovered }
}

#[test]
fn initial_state_is_empty() {
    let info = Highlight::default();
    assert!(info.dragging.is_none());
    assert!(info.hovered.is_none());
    let info = dropped();
    assert!(info.dragging.is_none());
    assert!(info.hovered.is_none());
}

#[test]
fn dragged_sets_the_source_and_keeps_the_hover() {
    let before = hovering(Some(list(2)));
    let after = dragged(&before, item(0, 1), rect(1, 2, 3, 4));
    assert_eq!(after.dragging, Some((item(0, 1), rect(1, 2, 3, 4))));
    assert_eq!(after.hovered, Some(list(2)));
}

#[test]
fn item_zone_wins_over_a_larger_container_zone() {
    let droppable = rect(0, 0, 100, 100);
    let zones = vec![(list(1), rect(0, 0, 100, 10)), (item(1, 0), rect(0, 0, 5, 2))];
    assert_eq!(zones[0].1.overlap_area(&droppable), 1000);
    assert_eq!(zones[1].1.overlap_area(&droppable), 10);
    assert_eq!(resolve(&zones, &droppable), Some(item(1, 0)));
    let reversed = vec![zones[1], zones[0]];
    assert_eq!(resolve(&reversed, &droppable), Some(item(1, 0)));
}

#[test]
fn tie_between_two_items_gives_exactly_one_of_them() {
    let droppable = rect(0, 0, 10, 10);
    let zones = vec![
        (item(0, 0), rect(0, 0, 2, 2)),
        (item(0, 1), rect(0, 0, 5, 4)),
        (item(0, 2), rect(5, 5, 4, 5)),
    ];
    let target = resolve(&zones, &droppable);
    assert!(target == Some(item(0, 1)) || target == Some(item(0, 2)));
    assert_eq!(target, Some(item(0, 1)));
}

#[test]
fn largest_overlap_wins_among_items() {
    let droppable = rect(10, 10, 10, 10);
    let zones = vec![
        (item(0, 0), rect(0, 0, 12, 12)),
        (item(0, 1), rect(12, 12, 100, 100)),
        (item(0, 2), rect(18, 18, 100, 100)),
    ];
    assert_eq!(resolve(&zones, &droppable), Some(item(0, 1)));
}

#[test]
fn largest_overlap_wins_among_containers_when_no_item_is_there() {
    let droppable = rect(0, 0, 10, 10);
    let zones = vec![(list(0), rect(0, 0, 3, 3)), (slot(1), rect(0, 0, 9, 9)), (list(2), rect(8, 8, 9, 9))];
    assert_eq!(resolve(&zones, &droppable), Some(slot(1)));
}

#[test]
fn zone_without_overlap_is_still_a_candidate() {
    let droppable = rect(0, 0, 10, 10);
    let zones = vec![(list(3), rect(50, 50, 5, 5))];
    assert_eq!(resolve(&zones, &droppable), Some(list(3)));
}

#[test]
fn no_zone_gives_no_target() {
    assert_eq!(resolve(&Vec::new(), &rect(0, 0, 10, 10)), None);
    assert_eq!(biggest_intersect_area(&Vec::new(), &rect(0, 0, 10, 10)), None);
}

#[test]
fn biggest_intersect_area_reports_the_area() {
    let droppable = rect(0, 0, 10, 10);
    let zones = vec![(list(0), rect(0, 0, 3, 3)), (list(1), rect(5, 5, 10, 10)), (list(2), rect(0, 5, 5, 5))];
    assert_eq!(biggest_intersect_area(&zones, &droppable), Some((list(1), 25)));
}

#[test]
fn zones_found_without_zones_clears_the_hover() {
    let before = Highlight { dragging: Some((item(0, 0), rect(0, 0, 1, 1))), hovered: Some(list(1)) };
    let after = zones_found(&before, &Vec::new());
    assert_eq!(after.hovered, None);
    assert_eq!(after.dragging, before.dragging);
    let idle = zones_found(&hovering(Some(list(1))), &Vec::new());
    assert_eq!(idle.hovered, None);
}

#[test]
fn zones_found_without_a_drag_keeps_the_hover() {
    let before = hovering(Some(list(1)));
    let after = zones_found(&before, &vec![(item(0, 0), rect(0, 0, 5, 5))]);
    assert_eq!(after.hovered, Some(list(1)));
    assert!(after.dragging.is_none());
}

#[test]
fn zones_found_during_a_drag_sets_the_target() {
    let before = Highlight { dragging: Some((item(0, 0), rect(0, 0, 10, 10))), hovered: None };
    let zones = vec![(list(1), rect(0, 0, 10, 10)), (item(1, 0), rect(9, 9, 5, 5))];
    let after = zones_found(&before, &zones);
    assert_eq!(after.hovered, Some(item(1, 0)));
    assert_eq!(after.dragging, before.dragging);
}

#[test]
fn zones_found_twice_gives_the_same_hover() {
    let before = Highlight { dragging: Some((item(0, 0), rect(0, 0, 10, 10))), hovered: Some(list(2)) };
    let zones = vec![(list(1), rect(0, 0, 10, 10)), (list(0), rect(2, 2, 50, 50))];
    let once = zones_found(&before, &zones);
    let twice = zones_found(&once, &zones);
    assert_eq!(once.hovered, Some(list(1)));
    assert_eq!(twice.hovered, once.hovered);
    assert_eq!(twice.dragging, once.dragging);
}

#[test]
fn zone_update_follows_the_table() {
    let a = item(0, 0);
    let b = item(0, 1);
    assert_eq!(zone_update(&hovering(None), &hovering(None)), ZoneUpdate::Nothing);
    assert_eq!(zone_update(&hovering(None), &hovering(Some(a))), ZoneUpdate::Highlight);
    assert_eq!(zone_update(&hovering(None), &hovering(Some(b))), ZoneUpdate::Highlight);
    assert_eq!(zone_update(&hovering(Some(a)), &hovering(None)), ZoneUpdate::RemoveHighlight);
    assert_eq!(zone_update(&hovering(Some(a)), &hovering(Some(a))), ZoneUpdate::Nothing);
    assert_eq!(zone_update(&hovering(Some(a)), &hovering(Some(b))), ZoneUpdate::Replace);
}

#[test]
fn zone_update_tells_addresses_apart_by_slot_and_element() {
    assert_eq!(zone_update(&hovering(Some(list(0))), &hovering(Some(slot(0)))), ZoneUpdate::Replace);
    assert_eq!(zone_update(&hovering(Some(list(0))), &hovering(Some(list(1)))), ZoneUpdate::Replace);
    assert_eq!(zone_update(&hovering(Some(item(1, 2))), &hovering(Some(item(1, 2)))), ZoneUpdate::Nothing);
}

#[test]
fn should_update_droppable_on_the_first_event_of_a_drag() {
    let idle = Highlight::default();
    let started = dragged(&idle, item(0, 0), rect(0, 0, 1, 1));
    assert!(should_update_droppable(&idle, &started, &item(0, 0)));
    assert!(should_update_droppable(&idle, &started, &item(5, 5)));
    assert!(!should_update_droppable(&idle, &idle, &item(0, 0)));
}

#[test]
fn should_update_droppable_while_the_same_source_is_dragged() {
    let started = dragged(&Highlight::default(), item(0, 0), rect(0, 0, 1, 1));
    let moved = dragged(&started, item(0, 0), rect(5, 5, 1, 1));
    assert!(should_update_droppable(&started, &moved, &item(0, 0)));
    assert!(!should_update_droppable(&started, &moved, &item(0, 1)));
    assert!(!should_update_droppable(&started, &Highlight::default(), &list(0)));
}
