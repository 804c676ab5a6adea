use iced::advanced::widget::Id;
use iced_drop::board::{
    is_double_click, map_zones, move_list_to_zone, todo_dropped_on_list, todo_dropped_on_todo,
    TodoBoard, DOUBLE_CLICK_TIME,
};
use iced_drop::geometry::Rectangle;
use iced_drop::highlight::Highlight;
use iced_drop::tree::{List, Slot, Todo, TreeData, TreeElement, TreeLocation};
use iced_drop::widget::operation::drop::{Intersects, Node};

fn rect(x: i32, y: i32, width: u32, height: u32) -> Rectangle {
    Rectangle { x, y, width, height }
}

fn item(slot: usize, index: usize) -> TreeLocation {
    TreeLocation::new(slot, TreeElement::Todo(index))
}

fn list(slot: usize) -> TreeLocation {
    TreeLocation::new(slot, TreeElement::List)
}

fn slot(slot: usize) -> TreeLocation {
    TreeLocation::new(slot, TreeElement::Slot)
}

fn todos(names: &[&'static str]) -> Vec<Todo> {
    names.iter().map(|name| Todo::new(Id::new(*name), name)).collect()
}

fn tree() -> TreeData {
    TreeData::new(vec![
        Slot::new(Id::new("slot_0"), List::new(Id::new("todo"), "Todo", todos(&["x", "fix"]))),
        Slot::new(Id::new("slot_1"), List::new(Id::new("doing"), "Doing", todos(&["write", "y", "test"]))),
        Slot::new(Id::new("slot_2"), List::new(Id::new("done"), "Done", Vec::new())),
    ])
}

fn names(tree: &TreeData, slot: usize) -> Vec<String> {
    tree.slots[slot].list.todos.iter().map(|todo| todo.content.clone()).collect()
}

fn item_ids(tree: &TreeData) -> Vec<Id> {
    tree.slots.iter().flat_map(|s| s.list.todos.iter().map(|t| t.id.clone())).collect()
}

fn any_flag(tree: &TreeData) -> bool {
    tree.slots
        .iter()
        .any(|s| s.highlight || s.list.highlight || s.list.todos.iter().any(|t| t.highlight))
}

/// Each list 100 wide and its slot 110 wide, side by side; each item 20 high.
fn layout(tree: &TreeData) -> Node {
    let mut slots = Vec::new();
    for (i, slot) in tree.slots.iter().enumerate() {
        let left = 110 * i as i32;
        let mut items = Vec::new();
        for (j, todo) in slot.list.todos.iter().enumerate() {
            items.push(Node {
                id: Some(todo.id.clone()),
                bounds: rect(left + 10, 40 + 20 * j as i32, 90, 20),
                scroll: None,
                children: Vec::new(),
            });
        }
        let list = Node {
            id: Some(slot.list.id.clone()),
            bounds: rect(left + 5, 5, 100, 300),
            scroll: None,
            children: items,
        };
        slots.push(Node {
            id: Some(slot.id.clone()),
            bounds: rect(left, 0, 110, 310),
            scroll: None,
            children: vec![list],
        });
    }
    Node { id: None, bounds: rect(0, 0, 330, 310), scroll: None, children: slots }
}

fn search(board: &TodoBoard, bounds: Rectangle, options: Vec<Id>) -> Vec<(Id, Rectangle)> {
    iced_drop::find_zones(&layout(&board.tree), Intersects { bounds }, Some(options), None)
}

#[test]
fn map_zones_gives_addresses_and_leaves_out_strangers() {
    let tree = tree();
    let zones = vec![
        (Id::new("y"), rect(1, 1, 1, 1)),
        (Id::new("nobody"), rect(2, 2, 2, 2)),
        (Id::new("done"), rect(3, 3, 3, 3)),
        (Id::new("slot_0"), rect(4, 4, 4, 4)),
    ];
    assert_eq!(
        map_zones(&tree, zones),
        [(item(1, 1), rect(1, 1, 1, 1)), (list(2), rect(3, 3, 3, 3)), (slot(0), rect(4, 4, 4, 4))]
    );
    assert!(map_zones(&tree, Vec::new()).is_empty());
}

#[test]
fn drop_on_item_of_another_list_inserts_at_its_place() {
    let mut tree = tree();
    tree.set_highlight(&item(0, 0), true);
    tree.set_highlight(&item(1, 1), true);
    todo_dropped_on_todo(&mut tree, &item(0, 0), &item(1, 1));
    assert_eq!(names(&tree, 0), ["fix"]);
    assert_eq!(names(&tree, 1), ["write", "x", "y", "test"]);
    assert!(!any_flag(&tree));
}

#[test]
fn drop_on_item_of_the_same_list_reorders() {
    let mut tree = tree();
    todo_dropped_on_todo(&mut tree, &item(1, 0), &item(1, 2));
    assert_eq!(names(&tree, 1), ["y", "write", "test"]);
    todo_dropped_on_todo(&mut tree, &item(1, 2), &item(1, 0));
    assert_eq!(names(&tree, 1), ["test", "y", "write"]);
    assert_eq!(names(&tree, 0), ["x", "fix"]);
}

#[test]
fn drop_on_item_with_stale_addresses() {
    let mut tree = tree();
    tree.set_highlight(&item(0, 0), true);
    tree.set_highlight(&item(1, 0), true);
    todo_dropped_on_todo(&mut tree, &item(0, 5), &item(1, 0));
    assert!(tree.slots[0].list.todos[0].highlight);
    assert!(tree.slots[1].list.todos[0].highlight);
    todo_dropped_on_todo(&mut tree, &item(0, 0), &item(1, 5));
    assert!(!tree.slots[0].list.todos[0].highlight);
    assert!(tree.slots[1].list.todos[0].highlight);
    todo_dropped_on_todo(&mut tree, &item(0, 0), &list(1));
    todo_dropped_on_todo(&mut tree, &list(0), &item(1, 0));
    assert_eq!(names(&tree, 0), ["x", "fix"]);
    assert_eq!(names(&tree, 1), ["write", "y", "test"]);
}

#[test]
fn drop_on_another_list_appends() {
    let mut tree = tree();
    tree.set_highlight(&item(0, 0), true);
    tree.set_highlight(&list(1), true);
    todo_dropped_on_list(&mut tree, &item(0, 0), &list(1));
    assert_eq!(names(&tree, 0), ["fix"]);
    assert_eq!(names(&tree, 1), ["write", "y", "test", "x"]);
    assert!(!any_flag(&tree));
    todo_dropped_on_list(&mut tree, &item(1, 0), &list(2));
    assert_eq!(names(&tree, 2), ["write"]);
}

#[test]
fn drop_on_the_own_list_moves_nothing() {
    let mut tree = tree();
    tree.set_highlight(&item(0, 0), true);
    tree.set_highlight(&list(0), true);
    todo_dropped_on_list(&mut tree, &item(0, 0), &list(0));
    assert_eq!(names(&tree, 0), ["x", "fix"]);
    assert!(!any_flag(&tree));
}

#[test]
fn drop_on_list_with_stale_addresses() {
    let mut tree = tree();
    tree.set_highlight(&list(1), true);
    todo_dropped_on_list(&mut tree, &item(0, 2), &list(1));
    todo_dropped_on_list(&mut tree, &list(0), &list(1));
    assert!(tree.slots[1].list.highlight);
    tree.set_highlight(&item(0, 1), true);
    todo_dropped_on_list(&mut tree, &item(0, 1), &list(3));
    assert!(!tree.slots[0].list.todos[1].highlight);
    assert_eq!(names(&tree, 0), ["x", "fix"]);
    assert_eq!(names(&tree, 1), ["write", "y", "test"]);
}

#[test]
fn move_list_to_zone_swaps_and_names_the_lists() {
    let mut tree = tree();
    let swapped = move_list_to_zone(&mut tree, &list(0), &slot(2));
    assert_eq!(swapped, Some((Id::new("todo"), Id::new("done"))));
    assert_eq!(tree.slots[0].list.id, Id::new("done"));
    assert_eq!(tree.slots[2].list.id, Id::new("todo"));
    assert_eq!(move_list_to_zone(&mut tree, &list(1), &slot(1)), None);
    assert_eq!(move_list_to_zone(&mut tree, &list(1), &slot(3)), None);
    assert_eq!(move_list_to_zone(&mut tree, &list(3), &slot(1)), None);
    assert_eq!(tree.slots[1].list.id, Id::new("doing"));
}

#[test]
fn double_click_needs_the_same_part_and_a_short_time() {
    assert_eq!(DOUBLE_CLICK_TIME, 500);
    assert!(is_double_click(&item(0, 0), &item(0, 0), 499));
    assert!(!is_double_click(&item(0, 0), &item(0, 0), 500));
    assert!(!is_double_click(&item(0, 0), &item(0, 1), 10));
    assert!(is_double_click(&list(2), &list(2), 0));
}

#[test]
fn drag_item_over_item_of_another_list_and_drop() {
    let mut board = TodoBoard::new(tree());
    let x = item(0, 0);
    let ids_before = item_ids(&board.tree);

    let dragged_bounds = rect(125, 62, 90, 20);
    let request = board.drag_todo(x, dragged_bounds);
    assert!(board.tree.slots[0].list.todos[0].highlight);
    assert!(!request.options.contains(&Id::new("x")));
    assert!(request.options.contains(&Id::new("y")));
    assert!(request.options.contains(&Id::new("doing")));
    assert_eq!(request.bounds, dragged_bounds);

    let zones = search(&board, request.bounds, request.options);
    board.handle_todo_zones(zones);
    assert_eq!(board.todos_highlight.hovered, Some(item(1, 1)));
    assert!(board.tree.slots[1].list.todos[1].highlight);

    board.drop_todo(x);
    assert_eq!(names(&board.tree, 0), ["fix"]);
    assert_eq!(names(&board.tree, 1), ["write", "x", "y", "test"]);
    assert_eq!(board.tree.slots[1].list.todos[1].id, Id::new("x"));
    assert_eq!(board.tree.slots[1].list.todos[2].id, Id::new("y"));
    assert!(!board.tree.slots[1].list.todos[1].highlight);
    assert!(!board.tree.slots[1].list.todos[2].highlight);
    assert!(!any_flag(&board.tree));
    assert!(board.todos_highlight.dragging.is_none());
    assert!(board.todos_highlight.hovered.is_none());
    let mut ids_after = item_ids(&board.tree);
    let mut sorted_before = ids_before.clone();
    sorted_before.sort_by_key(|id| format!("{:?}", id));
    ids_after.sort_by_key(|id| format!("{:?}", id));
    assert_eq!(ids_after, sorted_before);
}

#[test]
fn hover_moves_from_one_item_to_the_next() {
    let mut board = TodoBoard::new(tree());
    let x = item(0, 0);
    let first = board.drag_todo(x, rect(125, 42, 90, 10));
    let zones = search(&board, first.bounds, first.options);
    board.handle_todo_zones(zones);
    assert_eq!(board.todos_highlight.hovered, Some(item(1, 0)));
    assert!(board.tree.slots[1].list.todos[0].highlight);

    let second = board.drag_todo(x, rect(125, 85, 90, 10));
    let zones = search(&board, second.bounds, second.options);
    board.handle_todo_zones(zones);
    assert_eq!(board.todos_highlight.hovered, Some(item(1, 2)));
    assert!(!board.tree.slots[1].list.todos[0].highlight);
    assert!(board.tree.slots[1].list.todos[2].highlight);

    let third = board.drag_todo(x, rect(1000, 1000, 5, 5));
    let zones = search(&board, third.bounds, third.options);
    assert!(zones.is_empty());
    board.handle_todo_zones(zones);
    assert_eq!(board.todos_highlight.hovered, None);
    assert!(!board.tree.slots[1].list.todos[2].highlight);
    assert!(board.tree.slots[0].list.todos[0].highlight);
}

#[test]
fn drag_item_over_an_empty_list_and_drop() {
    let mut board = TodoBoard::new(tree());
    let x = item(0, 0);
    let request = board.drag_todo(x, rect(240, 100, 50, 20));
    let zones = search(&board, request.bounds, request.options);
    board.handle_todo_zones(zones);
    assert_eq!(board.todos_highlight.hovered, Some(list(2)));
    assert!(board.tree.slots[2].list.highlight);
    board.drop_todo(x);
    assert_eq!(names(&board.tree, 0), ["fix"]);
    assert_eq!(names(&board.tree, 2), ["x"]);
    assert!(!any_flag(&board.tree));
}

#[test]
fn drop_without_a_target_removes_the_item() {
    let mut board = TodoBoard::new(tree());
    let y = item(1, 1);
    let request = board.drag_todo(y, rect(1000, 1000, 5, 5));
    let zones = search(&board, request.bounds, request.options);
    board.handle_todo_zones(zones);
    assert_eq!(board.todos_highlight.hovered, None);
    board.drop_todo(y);
    assert_eq!(names(&board.tree, 1), ["write", "test"]);
    assert_eq!(names(&board.tree, 0), ["x", "fix"]);
    assert!(!any_flag(&board.tree));
    assert!(board.todos_highlight.dragging.is_none());
}

#[test]
fn cancel_clears_the_flags_and_moves_nothing() {
    let mut board = TodoBoard::new(tree());
    let x = item(0, 0);
    let request = board.drag_todo(x, rect(125, 62, 90, 20));
    let zones = search(&board, request.bounds, request.options);
    board.handle_todo_zones(zones);
    assert!(any_flag(&board.tree));
    board.todo_drop_canceled();
    assert!(!any_flag(&board.tree));
    assert_eq!(names(&board.tree, 0), ["x", "fix"]);
    assert_eq!(names(&board.tree, 1), ["write", "y", "test"]);
    assert!(board.todos_highlight.dragging.is_none());
    assert!(board.todos_highlight.hovered.is_none());
    board.todo_drop_canceled();
    assert!(!any_flag(&board.tree));
}

#[test]
fn stale_zones_after_a_cancel_change_nothing() {
    let mut board = TodoBoard::new(tree());
    let request = board.drag_todo(item(0, 0), rect(125, 62, 90, 20));
    let zones = search(&board, request.bounds, request.options);
    board.todo_drop_canceled();
    board.handle_todo_zones(zones);
    assert!(board.todos_highlight.hovered.is_none());
    assert!(!any_flag(&board.tree));
}

#[test]
fn drag_list_from_first_slot_to_second_and_drop() {
    let mut board = TodoBoard::new(tree());
    let ids_before = item_ids(&board.tree);
    let first = board.drag_list(list(0), rect(5, 5, 100, 300));
    assert_eq!(first.options, [Id::new("slot_0"), Id::new("slot_1"), Id::new("slot_2")]);
    let zones = search(&board, first.bounds, first.options);
    board.handle_list_zones(zones);
    assert_eq!(board.lists_highlight.hovered, Some(slot(0)));

    let second = board.drag_list(list(0), rect(111, 5, 100, 300));
    let zones = search(&board, second.bounds, second.options);
    board.handle_list_zones(zones);
    assert_eq!(board.lists_highlight.hovered, Some(slot(1)));
    assert!(board.tree.slots[1].highlight);
    assert!(!board.tree.slots[0].highlight);
    assert_eq!(board.tree.slots[0].list.id, Id::new("todo"));
    assert_eq!(board.tree.slots[1].list.id, Id::new("doing"));

    let swapped = board.drop_list(list(0));
    assert_eq!(swapped, Some((Id::new("todo"), Id::new("doing"))));
    assert_eq!(board.tree.slots[0].id, Id::new("slot_0"));
    assert_eq!(board.tree.slots[1].id, Id::new("slot_1"));
    assert_eq!(board.tree.slots[0].list.id, Id::new("doing"));
    assert_eq!(board.tree.slots[0].list.title, "Doing");
    assert_eq!(names(&board.tree, 0), ["write", "y", "test"]);
    assert_eq!(board.tree.slots[1].list.id, Id::new("todo"));
    assert_eq!(names(&board.tree, 1), ["x", "fix"]);
    assert_eq!(board.tree.slots[2].list.id, Id::new("done"));
    assert!(!any_flag(&board.tree));
    assert!(board.lists_highlight.dragging.is_none());
    assert!(board.lists_highlight.hovered.is_none());
    let mut after = item_ids(&board.tree);
    let mut before = ids_before.clone();
    before.sort_by_key(|id| format!("{:?}", id));
    after.sort_by_key(|id| format!("{:?}", id));
    assert_eq!(after, before);
}

#[test]
fn list_dropped_on_the_first_slot_it_hovers_changes_places() {
    let mut board = TodoBoard::new(tree());
    let request = board.drag_list(list(0), rect(230, 5, 90, 300));
    let zones = search(&board, request.bounds, request.options);
    board.handle_list_zones(zones);
    assert_eq!(board.lists_highlight.hovered, Some(slot(2)));
    assert!(board.tree.slots[2].highlight);
    assert_eq!(board.drop_list(list(0)), Some((Id::new("todo"), Id::new("done"))));
    assert_eq!(board.tree.slots[0].list.id, Id::new("done"));
    assert_eq!(board.tree.slots[2].list.id, Id::new("todo"));
    assert_eq!(names(&board.tree, 2), ["x", "fix"]);
    assert!(names(&board.tree, 0).is_empty());
    assert_eq!(board.tree.slots[1].list.id, Id::new("doing"));
    assert!(!any_flag(&board.tree));
}

#[test]
fn list_dropped_on_its_own_slot_or_on_nothing_stays() {
    let mut board = TodoBoard::new(tree());
    let request = board.drag_list(list(1), rect(115, 5, 100, 300));
    let zones = search(&board, request.bounds, request.options);
    board.handle_list_zones(zones);
    assert_eq!(board.lists_highlight.hovered, Some(slot(1)));
    assert_eq!(board.drop_list(list(1)), None);
    assert_eq!(board.tree.slots[1].list.id, Id::new("doing"));
    assert!(!any_flag(&board.tree));

    let request = board.drag_list(list(1), rect(1000, 1000, 5, 5));
    let zones = search(&board, request.bounds, request.options);
    board.handle_list_zones(zones);
    assert_eq!(board.lists_highlight.hovered, None);
    assert_eq!(board.drop_list(list(1)), None);
    assert_eq!(board.tree.slots[0].list.id, Id::new("todo"));
    assert_eq!(board.tree.slots[1].list.id, Id::new("doing"));
    assert_eq!(board.tree.slots[2].list.id, Id::new("done"));
    assert!(board.lists_highlight.dragging.is_none());
}

#[test]
fn list_drag_given_up_over_another_slot_leaves_no_flag_and_moves_nothing() {
    let mut board = TodoBoard::new(tree());
    let request = board.drag_list(list(0), rect(111, 5, 100, 300));
    let zones = search(&board, request.bounds, request.options);
    board.handle_list_zones(zones);
    assert_eq!(board.lists_highlight.hovered, Some(slot(1)));
    assert!(board.tree.slots[1].highlight);
    board.list_drop_canceled();
    assert!(!any_flag(&board.tree));
    assert!(board.lists_highlight.dragging.is_none());
    assert!(board.lists_highlight.hovered.is_none());
    assert_eq!(board.tree.slots[0].list.id, Id::new("todo"));
    assert_eq!(board.tree.slots[1].list.id, Id::new("doing"));
    assert_eq!(names(&board.tree, 0), ["x", "fix"]);
    assert_eq!(names(&board.tree, 1), ["write", "y", "test"]);
}

#[test]
fn hover_of_a_list_moves_from_slot_to_slot_without_moving_lists() {
    let mut board = TodoBoard::new(tree());
    for (left, hovered) in [(111, 1), (225, 2), (111, 1), (5, 0)] {
        let request = board.drag_list(list(0), rect(left, 5, 100, 300));
        let zones = search(&board, request.bounds, request.options);
        board.handle_list_zones(zones);
        assert_eq!(board.lists_highlight.hovered, Some(slot(hovered)));
        for s in 0..3 {
            assert_eq!(board.tree.slots[s].highlight, s == hovered);
        }
        assert_eq!(board.tree.slots[0].list.id, Id::new("todo"));
        assert_eq!(board.tree.slots[1].list.id, Id::new("doing"));
        assert_eq!(board.tree.slots[2].list.id, Id::new("done"));
    }
}

#[test]
fn item_dropped_while_a_slot_is_hovered_loses_the_flags_and_stays() {
    let mut board = TodoBoard::new(tree());
    board.drag_todo(item(0, 0), rect(0, 0, 1, 1));
    board.tree.set_highlight(&slot(1), true);
    board.todos_highlight.hovered = Some(slot(1));
    assert!(any_flag(&board.tree));
    board.drop_todo(item(0, 0));
    assert!(!any_flag(&board.tree));
    assert_eq!(names(&board.tree, 0), ["x", "fix"]);
    assert_eq!(names(&board.tree, 1), ["write", "y", "test"]);
    assert!(board.todos_highlight.hovered.is_none());
}

#[test]
fn item_drag_given_up_with_a_stale_source_still_clears_the_hover() {
    let mut board = TodoBoard::new(tree());
    board.tree.set_highlight(&item(1, 0), true);
    board.todos_highlight =
        Highlight { dragging: Some((item(0, 9), rect(0, 0, 1, 1))), hovered: Some(item(1, 0)) };
    board.todo_drop_canceled();
    assert!(!any_flag(&board.tree));
    assert!(board.todos_highlight.dragging.is_none());
    board.tree.set_highlight(&list(2), true);
    board.todos_highlight = Highlight { dragging: None, hovered: Some(list(2)) };
    board.todo_drop_canceled();
    assert!(!any_flag(&board.tree));
}

#[test]
fn item_dropped_with_a_stale_source_still_clears_the_hover() {
    let mut board = TodoBoard::new(tree());
    board.tree.set_highlight(&list(1), true);
    board.todos_highlight =
        Highlight { dragging: Some((item(0, 9), rect(0, 0, 1, 1))), hovered: Some(list(1)) };
    board.drop_todo(item(0, 9));
    assert!(!any_flag(&board.tree));
    assert_eq!(names(&board.tree, 0), ["x", "fix"]);
    assert_eq!(names(&board.tree, 1), ["write", "y", "test"]);
}

#[test]
fn list_drop_canceled_clears_list_and_slot() {
    let mut board = TodoBoard::new(tree());
    board.tree.set_highlight(&list(1), true);
    board.tree.set_highlight(&slot(1), true);
    board.lists_highlight = Highlight { dragging: Some((list(1), rect(0, 0, 1, 1))), hovered: None };
    board.list_drop_canceled();
    assert!(!any_flag(&board.tree));
    assert!(board.lists_highlight.dragging.is_none());
    board.list_drop_canceled();
    assert!(!any_flag(&board.tree));
    board.tree.set_highlight(&slot(2), true);
    board.lists_highlight = Highlight { dragging: None, hovered: Some(slot(2)) };
    board.list_drop_canceled();
    assert!(!any_flag(&board.tree));
    assert!(board.lists_highlight.hovered.is_none());
}

#[test]
fn drag_of_lists_and_of_items_keep_their_own_state() {
    let mut board = TodoBoard::new(tree());
    board.drag_list(list(0), rect(5, 5, 100, 300));
    assert!(board.todos_highlight.dragging.is_none());
    board.drag_todo(item(0, 0), rect(0, 0, 1, 1));
    assert_eq!(board.lists_highlight.dragging, Some((list(0), rect(5, 5, 100, 300))));
    board.drop_todo(item(0, 0));
    assert_eq!(board.lists_highlight.dragging, Some((list(0), rect(5, 5, 100, 300))));
    board.drop_list(list(0));
    assert!(board.lists_highlight.dragging.is_none());
}
