//! The drag-and-drop of a to-do board: what each gesture does to the board
//! and to the highlight state, and what the caller has to do next.
use crate::geometry::Rectangle;
use crate::highlight::{
    after_zones, applied, dragged, dropped, dropped_state, lemma_update_keeps_flags, set_hovered,
    should_update_droppable, transition, with_hovered, zone_update, zones_found, Highlight,
};
use crate::tree::{
    highlight_at, id_at, item_ids, lemma_with_highlight, locate, moved, resolves, slot_ids,
    storable, todo_options_of, with_highlight, with_lists_swapped, with_todos, SlotView, TodoView,
    TreeData, TreeElement, TreeLocation,
};
use iced::advanced::widget::Id;
use vstd::prelude::*;

verus! {

/// The zones that name a part of the board, each under the address of that
/// part, in order. A zone whose identity the board does not know is left out.
pub open spec fn mapped_zones(board: Seq<SlotView>, zones: Seq<(Id, Rectangle)>) -> Seq<
    (TreeLocation, Rectangle),
>
    decreases zones.len(),
{
    if zones.len() == 0 {
        Seq::empty()
    } else {
        match locate(board, zones.last().0) {
            Some(loc) => mapped_zones(board, zones.drop_last()).push((loc, zones.last().1)),
            None => mapped_zones(board, zones.drop_last()),
        }
    }
}

/// The address of the list in a slot.
pub open spec fn list_in(slot: usize) -> TreeLocation {
    TreeLocation { slot, element: TreeElement::List }
}

/// The board after the item at `d_loc` was dropped on the list in the slot
/// of `h_loc`. Both lose their highlight, and the item moves to the end of
/// that list unless it is in it already. Nothing changes where `d_loc` names
/// no item; where the slot of `h_loc` does not exist, the item only loses
/// its highlight.
pub open spec fn after_drop_on_list(
    board: Seq<SlotView>,
    d_loc: TreeLocation,
    h_loc: TreeLocation,
) -> Seq<SlotView> {
    if !(resolves(board, d_loc) && d_loc.is_todo()) {
        board
    } else if h_loc.slot >= board.len() {
        with_highlight(board, d_loc, false)
    } else {
        let calm = with_highlight(with_highlight(board, d_loc, false), list_in(h_loc.slot), false);
        if d_loc.slot == h_loc.slot {
            calm
        } else {
            let from = d_loc.slot as int;
            let to = h_loc.slot as int;
            let index = d_loc.element->Todo_0 as int;
            let item = calm[from].list.todos[index];
            let taken = with_todos(calm, from, calm[from].list.todos.remove(index));
            with_todos(taken, to, taken[to].list.todos.push(item))
        }
    }
}

/// The items after the one at `from` took the place of the one at `to`.
pub open spec fn reordered(board: Seq<SlotView>, slot: int, from: int, to: int) -> Seq<SlotView> {
    with_todos(board, slot, moved(board[slot].list.todos, from, to))
}

/// The board after the item at `d_loc` was dropped on the item at `h_loc`.
/// Both lose their highlight. An item from another list is put in where the
/// target stands, and the target and the items behind it move one place
/// back; an item of the same list moves to the target's place. Nothing
/// changes where `d_loc` names no item; where `h_loc` names none, the
/// dragged item only loses its highlight.
pub open spec fn after_drop_on_todo(
    board: Seq<SlotView>,
    d_loc: TreeLocation,
    h_loc: TreeLocation,
) -> Seq<SlotView> {
    if !(resolves(board, d_loc) && d_loc.is_todo()) {
        board
    } else if !(resolves(board, h_loc) && h_loc.is_todo()) {
        with_highlight(board, d_loc, false)
    } else {
        let calm = with_highlight(with_highlight(board, d_loc, false), h_loc, false);
        let from = d_loc.slot as int;
        let to = h_loc.slot as int;
        let i = d_loc.element->Todo_0 as int;
        let j = h_loc.element->Todo_0 as int;
        if from != to {
            let item = calm[from].list.todos[i];
            let taken = with_todos(calm, from, calm[from].list.todos.remove(i));
            with_todos(taken, to, taken[to].list.todos.insert(j, item))
        } else {
            reordered(calm, from, i, j)
        }
    }
}

/// The board with the flag of what is dragged and the flag of what is
/// hovered cleared.
pub open spec fn calmed(
    board: Seq<SlotView>,
    dragged: TreeLocation,
    hovered: Option<TreeLocation>,
) -> Seq<SlotView> {
    with_hovered(with_highlight(board, dragged, false), hovered, false)
}

/// The board after the item at `t_loc` was dropped while `info` was the
/// highlight state. The item and the hovered zone lose their highlight in
/// every case. Then the item is dropped on the hovered list or item, or
/// taken off the board where nothing is hovered; a hovered slot takes no
/// item.
pub open spec fn after_drop(board: Seq<SlotView>, info: Highlight, t_loc: TreeLocation) -> Seq<
    SlotView,
> {
    let calm = calmed(board, t_loc, info.hovered);
    match info.hovered {
        Some(h_loc) => match h_loc.element {
            TreeElement::List => after_drop_on_list(calm, t_loc, h_loc),
            TreeElement::Todo(_) => after_drop_on_todo(calm, t_loc, h_loc),
            TreeElement::Slot => calm,
        },
        None => if resolves(calm, t_loc) && t_loc.is_todo() {
            with_todos(
                calm,
                t_loc.slot as int,
                calm[t_loc.slot as int].list.todos.remove(t_loc.element->Todo_0 as int),
            )
        } else {
            calm
        },
    }
}

/// The board after a drag of an item was given up: what is dragged and the
/// hovered zone lose their highlight, and nothing moves.
pub open spec fn after_cancel(board: Seq<SlotView>, info: Highlight) -> Seq<SlotView> {
    match info.dragging {
        Some((d_loc, _)) => calmed(board, d_loc, info.hovered),
        None => with_hovered(board, info.hovered, false),
    }
}

/// The address of a slot.
pub open spec fn slot_of(slot: usize) -> TreeLocation {
    TreeLocation { slot, element: TreeElement::Slot }
}

/// The board with the flags of a dragged list, of the slot it is in and of
/// what is hovered cleared.
pub open spec fn list_drag_calmed(
    board: Seq<SlotView>,
    d_loc: TreeLocation,
    hovered: Option<TreeLocation>,
) -> Seq<SlotView> {
    with_hovered(
        with_highlight(with_highlight(board, list_in(d_loc.slot), false), slot_of(d_loc.slot), false),
        hovered,
        false,
    )
}

/// The board after the list in the slot of `l_loc` was dropped while `info`
/// was the highlight state. The list, its slot and the hovered zone lose
/// their highlight, and the list changes places with the list in the
/// hovered slot, where there is one and it is another.
pub open spec fn after_list_drop(board: Seq<SlotView>, info: Highlight, l_loc: TreeLocation) -> Seq<
    SlotView,
> {
    let calm = list_drag_calmed(board, l_loc, info.hovered);
    match info.hovered {
        Some(s_loc) => with_lists_swapped(calm, l_loc.slot as int, s_loc.slot as int),
        None => calm,
    }
}

/// The lists that change places when the list in the slot of `l_loc` is
/// dropped, the dragged one first.
pub open spec fn lists_dropped(board: Seq<SlotView>, info: Highlight, l_loc: TreeLocation) -> Option<
    (Id, Id),
> {
    match info.hovered {
        Some(s_loc) => lists_exchanged(board, l_loc.slot as int, s_loc.slot as int),
        None => None,
    }
}

/// The board after a drag of a list was given up: the list, its slot and
/// the hovered zone lose their highlight, and no list moves.
pub open spec fn after_list_cancel(board: Seq<SlotView>, info: Highlight) -> Seq<SlotView> {
    match info.dragging {
        Some((d_loc, _)) => list_drag_calmed(board, d_loc, info.hovered),
        None => with_hovered(board, info.hovered, false),
    }
}

/// Gives each zone the address of the part of the board that it names, and
/// leaves out the zones that name none.
pub fn map_zones(tree: &TreeData, zones: Vec<(Id, Rectangle)>) -> (mapped: Vec<
    (TreeLocation, Rectangle),
>)
    ensures
        mapped@ == mapped_zones(tree@, zones@),
{
    let mut mapped: Vec<(TreeLocation, Rectangle)> = Vec::new();
    let mut i: usize = 0;
    while i < zones.len()
        invariant
            i <= zones.len(),
            mapped@ == mapped_zones(tree@, zones@.take(i as int)),
        decreases zones.len() - i,
    {
        proof {
            assert(zones@.take(i + 1).drop_last() =~= zones@.take(i as int));
            assert(zones@.take(i + 1).last() == zones@[i as int]);
        }
        match tree.find(&zones[i].0) {
            Some(loc) => {
                mapped.push((loc, zones[i].1));
            },
            None => (),
        }
        i += 1;
    }
    proof {
        assert(zones@.take(i as int) =~= zones@);
    }
    mapped
}

/// Drops the item at `d_loc` on the list in the slot of `h_loc`.
pub fn todo_dropped_on_list(tree: &mut TreeData, d_loc: &TreeLocation, h_loc: &TreeLocation)
    ensures
        final(tree)@ == after_drop_on_list(old(tree)@, *d_loc, *h_loc),
{
    if tree.todo(d_loc).is_none() {
        return ;
    }
    tree.set_highlight(d_loc, false);
    if h_loc.slot >= tree.slots.len() {
        return ;
    }
    tree.set_highlight(&TreeLocation::new(h_loc.slot, TreeElement::List), false);
    if d_loc.slot == h_loc.slot {
        return ;
    }
    match tree.remove(d_loc) {
        Some(todo) => {
            tree.push(h_loc.slot, todo);
        },
        None => (),
    }
}

/// Drops the item at `d_loc` on the item at `h_loc`.
pub fn todo_dropped_on_todo(tree: &mut TreeData, d_loc: &TreeLocation, h_loc: &TreeLocation)
    ensures
        final(tree)@ == after_drop_on_todo(old(tree)@, *d_loc, *h_loc),
{
    if tree.todo(d_loc).is_none() {
        return ;
    }
    tree.set_highlight(d_loc, false);
    if tree.todo(h_loc).is_none() {
        return ;
    }
    tree.set_highlight(h_loc, false);
    if d_loc.slot != h_loc.slot {
        match h_loc.element {
            TreeElement::Todo(i) => {
                match tree.remove(d_loc) {
                    Some(todo) => {
                        tree.insert(h_loc.slot, todo, i);
                    },
                    None => (),
                }
            },
            _ => (),
        }
    } else {
        tree.move_todo(d_loc, h_loc);
    }
}

/// Moves the list in the slot of `d_loc` to the slot of `h_loc`, and the
/// list that was there back. Returns the identities of the two lists, the
/// dragged one first, where the lists changed places: the caller exchanges
/// what the widgets of the two lists remember.
pub fn move_list_to_zone(tree: &mut TreeData, d_loc: &TreeLocation, h_loc: &TreeLocation) -> (swapped:
    Option<(Id, Id)>)
    ensures
        final(tree)@ == with_lists_swapped(old(tree)@, d_loc.slot as int, h_loc.slot as int),
        swapped == lists_exchanged(old(tree)@, d_loc.slot as int, h_loc.slot as int),
{
    if d_loc.slot >= tree.slots.len() || h_loc.slot >= tree.slots.len() || d_loc.slot
        == h_loc.slot {
        return None;
    }
    let l1 = tree.slots[d_loc.slot].list.id();
    let l2 = tree.slots[h_loc.slot].list.id();
    tree.swap_lists(d_loc, h_loc);
    Some((l1, l2))
}

/// The longest time between two clicks on one part, in milliseconds, for the
/// second click to start editing.
pub const DOUBLE_CLICK_TIME: u128 = 500;

/// Whether a click on `loc` starts editing: the click before was on the same
/// part and less than `DOUBLE_CLICK_TIME` ago.
pub fn is_double_click(clicked: &TreeLocation, loc: &TreeLocation, elapsed_millis: u128) -> (edit:
    bool)
    ensures
        edit == (*clicked == *loc && elapsed_millis < DOUBLE_CLICK_TIME),
{
    *clicked == *loc && elapsed_millis < DOUBLE_CLICK_TIME
}

/// A board with the state of its two kinds of drag: of items and of lists.
pub struct TodoBoard {
    pub tree: TreeData,
    pub todos_highlight: Highlight,
    pub lists_highlight: Highlight,
}

/// The search for drop zones that the caller runs after a drag event: the
/// zones have to intersect `bounds`, and only `options` are eligible.
pub struct ZoneSearch {
    pub bounds: Rectangle,
    pub options: Vec<Id>,
}

impl TodoBoard {
    /// A board on which nothing is dragged.
    pub fn new(tree: TreeData) -> (board: TodoBoard)
        ensures
            board.tree@ == tree@,
            board.todos_highlight == dropped_state(),
            board.lists_highlight == dropped_state(),
    {
        TodoBoard { tree, todos_highlight: dropped(), lists_highlight: dropped() }
    }

    /// An item is dragged: `t_loc` with the bounds `t_bounds`. The item is
    /// highlighted when the drag begins; the hovered zone stays. Returns the
    /// search to run: every other item and every list is eligible.
    pub fn drag_todo(&mut self, t_loc: TreeLocation, t_bounds: Rectangle) -> (search: ZoneSearch)
        ensures
            final(self).todos_highlight.dragging == Some((t_loc, t_bounds)),
            final(self).todos_highlight.hovered == old(self).todos_highlight.hovered,
            final(self).lists_highlight == old(self).lists_highlight,
            final(self).tree@ == match old(self).todos_highlight.dragging {
                Some((d_loc, _)) if d_loc != t_loc => old(self).tree@,
                _ => if t_loc.is_todo() {
                    with_highlight(old(self).tree@, t_loc, true)
                } else {
                    old(self).tree@
                },
            },
            search.bounds == t_bounds,
            search.options@ == todo_options_of(final(self).tree@, t_loc),
    {
        let new_highlight = dragged(&self.todos_highlight, t_loc, t_bounds);
        if should_update_droppable(&self.todos_highlight, &new_highlight, &t_loc) {
            if self.tree.todo(&t_loc).is_some() {
                self.tree.set_highlight(&t_loc, true);
            }
        }
        self.todos_highlight = new_highlight;
        ZoneSearch { bounds: t_bounds, options: self.tree.todo_options(&t_loc) }
    }

    /// The search after a drag of an item has found `zones`: the hovered
    /// zone is determined anew and the flags follow it.
    pub fn handle_todo_zones(&mut self, zones: Vec<(Id, Rectangle)>)
        ensures
            final(self).todos_highlight == after_zones(
                old(self).todos_highlight,
                mapped_zones(old(self).tree@, zones@),
            ),
            final(self).lists_highlight == old(self).lists_highlight,
            final(self).tree@ == applied(
                transition(old(self).todos_highlight.hovered, final(self).todos_highlight.hovered),
                old(self).tree@,
                old(self).todos_highlight.hovered,
                final(self).todos_highlight.hovered,
            ),
    {
        let mapped = map_zones(&self.tree, zones);
        let new_highlight = zones_found(&self.todos_highlight, &mapped);
        let update = zone_update(&self.todos_highlight, &new_highlight);
        update.update(&mut self.tree, &self.todos_highlight, &new_highlight);
        self.todos_highlight = new_highlight;
    }

    /// The dragged item `t_loc` is dropped: on the hovered list or item, or
    /// off the board where nothing is hovered. It and the hovered zone lose
    /// their highlight, and the drag is over.
    pub fn drop_todo(&mut self, t_loc: TreeLocation)
        ensures
            final(self).tree@ == after_drop(old(self).tree@, old(self).todos_highlight, t_loc),
            final(self).todos_highlight == dropped_state(),
            final(self).lists_highlight == old(self).lists_highlight,
    {
        self.tree.set_highlight(&t_loc, false);
        set_hovered(&mut self.tree, &self.todos_highlight, false);
        match self.todos_highlight.hovered {
            Some(h_loc) => match h_loc.element {
                TreeElement::List => todo_dropped_on_list(&mut self.tree, &t_loc, &h_loc),
                TreeElement::Todo(_) => todo_dropped_on_todo(&mut self.tree, &t_loc, &h_loc),
                TreeElement::Slot => (),
            },
            None => {
                let _ = self.tree.remove(&t_loc);
            },
        }
        self.todos_highlight = dropped();
    }

    /// The drag of an item is given up: the item and the hovered zone lose
    /// their highlight, nothing moves, and the drag is over.
    pub fn todo_drop_canceled(&mut self)
        ensures
            final(self).tree@ == after_cancel(old(self).tree@, old(self).todos_highlight),
            final(self).todos_highlight == dropped_state(),
            final(self).lists_highlight == old(self).lists_highlight,
    {
        match self.todos_highlight.dragging {
            Some((d_loc, _)) => {
                self.tree.set_highlight(&d_loc, false);
            },
            None => (),
        }
        set_hovered(&mut self.tree, &self.todos_highlight, false);
        self.todos_highlight = dropped();
    }

    /// A list is dragged: the one in the slot of `l_loc`, with the bounds
    /// `l_bounds`. Its highlight is cleared when the drag begins. Returns the
    /// search to run: the slots are eligible.
    pub fn drag_list(&mut self, l_loc: TreeLocation, l_bounds: Rectangle) -> (search: ZoneSearch)
        ensures
            final(self).lists_highlight.dragging == Some((l_loc, l_bounds)),
            final(self).lists_highlight.hovered == old(self).lists_highlight.hovered,
            final(self).todos_highlight == old(self).todos_highlight,
            final(self).tree@ == match old(self).lists_highlight.dragging {
                Some((d_loc, _)) if d_loc != l_loc => old(self).tree@,
                _ => with_highlight(old(self).tree@, list_in(l_loc.slot), false),
            },
            search.bounds == l_bounds,
            search.options@ == slot_ids(final(self).tree@),
    {
        let new_highlight = dragged(&self.lists_highlight, l_loc, l_bounds);
        if should_update_droppable(&self.lists_highlight, &new_highlight, &l_loc) {
            self.tree.set_highlight(&TreeLocation::new(l_loc.slot, TreeElement::List), false);
        }
        self.lists_highlight = new_highlight;
        ZoneSearch { bounds: l_bounds, options: self.tree.list_options() }
    }

    /// The search after a drag of a list has found `zones`: the hovered zone
    /// is determined anew and the flags follow it. No list moves before the
    /// drop.
    pub fn handle_list_zones(&mut self, zones: Vec<(Id, Rectangle)>)
        ensures
            final(self).lists_highlight == after_zones(
                old(self).lists_highlight,
                mapped_zones(old(self).tree@, zones@),
            ),
            final(self).todos_highlight == old(self).todos_highlight,
            final(self).tree@ == applied(
                transition(old(self).lists_highlight.hovered, final(self).lists_highlight.hovered),
                old(self).tree@,
                old(self).lists_highlight.hovered,
                final(self).lists_highlight.hovered,
            ),
    {
        let mapped = map_zones(&self.tree, zones);
        let new_info = zones_found(&self.lists_highlight, &mapped);
        let highlight_update = zone_update(&self.lists_highlight, &new_info);
        highlight_update.update(&mut self.tree, &self.lists_highlight, &new_info);
        self.lists_highlight = new_info;
    }

    /// The dragged list in the slot of `l_loc` is dropped: it, its slot and
    /// the hovered zone lose their highlight, the list changes places with
    /// the list in the hovered slot, and the drag is over. Returns the
    /// identities of the two lists, the dragged one first, where they
    /// changed places: the caller exchanges what the widgets of the two
    /// lists remember.
    pub fn drop_list(&mut self, l_loc: TreeLocation) -> (swapped: Option<(Id, Id)>)
        ensures
            final(self).tree@ == after_list_drop(old(self).tree@, old(self).lists_highlight, l_loc),
            swapped == lists_dropped(old(self).tree@, old(self).lists_highlight, l_loc),
            final(self).lists_highlight == dropped_state(),
            final(self).todos_highlight == old(self).todos_highlight,
    {
        self.tree.set_highlight(&TreeLocation::new(l_loc.slot, TreeElement::List), false);
        self.tree.set_highlight(&TreeLocation::new(l_loc.slot, TreeElement::Slot), false);
        set_hovered(&mut self.tree, &self.lists_highlight, false);
        proof {
            lemma_list_drag_calmed_keeps_lists(old(self).tree@, l_loc, self.lists_highlight.hovered);
        }
        let swapped = match self.lists_highlight.hovered {
            Some(s_loc) => move_list_to_zone(&mut self.tree, &l_loc, &s_loc),
            None => None,
        };
        self.lists_highlight = dropped();
        swapped
    }

    /// The drag of a list is given up: the list, the slot it is in and the
    /// hovered zone lose their highlight, no list moves, and the drag is
    /// over.
    pub fn list_drop_canceled(&mut self)
        ensures
            final(self).tree@ == after_list_cancel(old(self).tree@, old(self).lists_highlight),
            final(self).lists_highlight == dropped_state(),
            final(self).todos_highlight == old(self).todos_highlight,
    {
        match self.lists_highlight.dragging {
            Some((d_loc, _)) => {
                self.tree.set_highlight(&TreeLocation::new(d_loc.slot, TreeElement::List), false);
                self.tree.set_highlight(&TreeLocation::new(d_loc.slot, TreeElement::Slot), false);
            },
            None => (),
        }
        set_hovered(&mut self.tree, &self.lists_highlight, false);
        self.lists_highlight = dropped();
    }
}

/// The identities of the lists in the slots `a` and `b`, in that order,
/// where exchanging them changes the board: where both slots exist and
/// differ.
pub open spec fn lists_exchanged(board: Seq<SlotView>, a: int, b: int) -> Option<(Id, Id)> {
    if 0 <= a < board.len() && 0 <= b < board.len() && a != b {
        Some((board[a].list.id, board[b].list.id))
    } else {
        None
    }
}

/// Clearing flags changes the identity of no list.
pub proof fn lemma_list_drag_calmed_keeps_lists(
    board: Seq<SlotView>,
    d_loc: TreeLocation,
    hovered: Option<TreeLocation>,
)
    ensures
        list_drag_calmed(board, d_loc, hovered).len() == board.len(),
        forall|s: int|
            0 <= s < board.len() ==> (#[trigger] list_drag_calmed(board, d_loc, hovered)[s]).list.id
                == board[s].list.id,
{
}

/// An item dropped on an item of another list leaves its list and stands
/// in the other list where the target stood, the target right behind it,
/// both without highlight. The one list is shorter by one, the other longer
/// by one, and no other slot changes.
pub proof fn lemma_transfer_onto_item(board: Seq<SlotView>, d_loc: TreeLocation, h_loc: TreeLocation)
    requires
        resolves(board, d_loc),
        resolves(board, h_loc),
        d_loc.is_todo(),
        h_loc.is_todo(),
        d_loc.slot != h_loc.slot,
    ensures
        ({
            let after = after_drop_on_todo(board, d_loc, h_loc);
            let from = d_loc.slot as int;
            let to = h_loc.slot as int;
            let i = d_loc.element->Todo_0 as int;
            let j = h_loc.element->Todo_0 as int;
            &&& after.len() == board.len()
            &&& after[from].list.todos.len() == board[from].list.todos.len() - 1
            &&& after[to].list.todos.len() == board[to].list.todos.len() + 1
            &&& after[from].list.todos == board[from].list.todos.remove(i)
            &&& after[to].list.todos[j].id == board[from].list.todos[i].id
            &&& after[to].list.todos[j].content == board[from].list.todos[i].content
            &&& !after[to].list.todos[j].highlight
            &&& after[to].list.todos[j + 1].id == board[to].list.todos[j].id
            &&& !after[to].list.todos[j + 1].highlight
            &&& forall|s: int| 0 <= s < board.len() && s != from && s != to ==> after[s] == board[s]
        }),
{
}

/// Exchanging the lists of two slots leaves every slot its identity and
/// its flag, puts each of the two lists whole into the other slot, and
/// changes no other slot.
pub proof fn lemma_swap_keeps_slots(board: Seq<SlotView>, a: int, b: int)
    requires
        0 <= a < board.len(),
        0 <= b < board.len(),
    ensures
        ({
            let after = with_lists_swapped(board, a, b);
            &&& after.len() == board.len()
            &&& slot_ids(after) == slot_ids(board)
            &&& after[a].list == board[b].list
            &&& after[b].list == board[a].list
            &&& forall|s: int| 0 <= s < board.len() ==> (#[trigger] after[s]).highlight == board[s].highlight
            &&& forall|s: int| 0 <= s < board.len() && s != a && s != b ==> after[s] == board[s]
        }),
{
    assert(slot_ids(with_lists_swapped(board, a, b)) =~= slot_ids(board));
}

/// Whether no part of the board is highlighted.
pub open spec fn no_flags(board: Seq<SlotView>) -> bool {
    forall|loc: TreeLocation| #[trigger] resolves(board, loc) ==> !highlight_at(board, loc)
}

/// Whether nothing is highlighted but what is dragged and what is hovered.
pub open spec fn flags_within(board: Seq<SlotView>, info: Highlight) -> bool {
    forall|loc: TreeLocation|
        #[trigger] resolves(board, loc) && highlight_at(board, loc) ==> info.hovered == Some(loc)
            || (info.dragging matches Some((d_loc, _)) && d_loc == loc)
}

/// Whether none of the items is highlighted.
pub open spec fn plain(todos: Seq<TodoView>) -> bool {
    forall|k: int| 0 <= k < todos.len() ==> !(#[trigger] todos[k]).highlight
}

/// On a board without highlight no slot, no list and no item has its flag
/// set.
proof fn lemma_no_flags_parts(board: Seq<SlotView>, s: int)
    requires
        storable(board),
        no_flags(board),
        0 <= s < board.len(),
    ensures
        !board[s].highlight,
        !board[s].list.highlight,
        plain(board[s].list.todos),
{
    assert(resolves(board, TreeLocation { slot: s as usize, element: TreeElement::Slot }));
    assert(resolves(board, TreeLocation { slot: s as usize, element: TreeElement::List }));
    assert forall|k: int| 0 <= k < board[s].list.todos.len() implies !(
    #[trigger] board[s].list.todos[k]).highlight by {
        assert(resolves(
            board,
            TreeLocation { slot: s as usize, element: TreeElement::Todo(k as usize) },
        ));
    }
}

/// Other items in one list leave a board without highlight if none of them
/// is highlighted.
proof fn lemma_plain_todos_keep_no_flags(board: Seq<SlotView>, s: int, todos: Seq<TodoView>)
    requires
        storable(board),
        no_flags(board),
        0 <= s < board.len(),
        plain(todos),
    ensures
        no_flags(with_todos(board, s, todos)),
        with_todos(board, s, todos).len() == board.len(),
{
    let after = with_todos(board, s, todos);
    assert forall|loc: TreeLocation| #[trigger] resolves(after, loc) implies !highlight_at(
        after,
        loc,
    ) by {
        lemma_no_flags_parts(board, loc.slot as int);
        if loc.slot != s {
            assert(resolves(board, loc));
        }
    }
}

/// When a drag begins on a board without highlight, only what is dragged is
/// highlighted.
pub proof fn lemma_drag_start_flags(board: Seq<SlotView>, t_loc: TreeLocation, bounds: Rectangle)
    requires
        no_flags(board),
    ensures
        flags_within(
            with_highlight(board, t_loc, true),
            Highlight { dragging: Some((t_loc, bounds)), hovered: None },
        ),
{
    lemma_with_highlight(board, t_loc, true);
    let after = with_highlight(board, t_loc, true);
    assert forall|loc: TreeLocation|
        #[trigger] resolves(after, loc) && highlight_at(after, loc) implies loc == t_loc by {
        assert(resolves(board, loc));
    }
}

/// When the drag of a list begins on a board without highlight, nothing is
/// highlighted.
pub proof fn lemma_list_drag_start_flags(
    board: Seq<SlotView>,
    l_loc: TreeLocation,
    bounds: Rectangle,
)
    requires
        no_flags(board),
    ensures
        no_flags(with_highlight(board, list_in(l_loc.slot), false)),
        flags_within(
            with_highlight(board, list_in(l_loc.slot), false),
            Highlight { dragging: Some((l_loc, bounds)), hovered: None },
        ),
{
    lemma_clearing_keeps_no_flags(board, list_in(l_loc.slot));
}

/// While the same thing is dragged, following the hovered zone keeps the
/// highlight to what is dragged and what is hovered.
pub proof fn lemma_hover_keeps_flags_within(board: Seq<SlotView>, old: Highlight, new: Highlight)
    requires
        flags_within(board, old),
        new.dragging == old.dragging,
    ensures
        flags_within(
            applied(transition(old.hovered, new.hovered), board, old.hovered, new.hovered),
            new,
        ),
{
    let after = applied(transition(old.hovered, new.hovered), board, old.hovered, new.hovered);
    lemma_update_keeps_flags(board, old.hovered, new.hovered);
    assert forall|loc: TreeLocation|
        #[trigger] resolves(after, loc) && highlight_at(after, loc) implies new.hovered == Some(loc)
        || (new.dragging matches Some((d_loc, _)) && d_loc == loc) by {
        assert(resolves(board, loc));
    }
}

/// Clearing a flag leaves a board without highlight without highlight, and
/// a board that memory can hold one that it can hold.
proof fn lemma_clearing_keeps_no_flags(board: Seq<SlotView>, loc: TreeLocation)
    ensures
        no_flags(board) ==> no_flags(with_highlight(board, loc, false)),
        storable(board) ==> storable(with_highlight(board, loc, false)),
        with_highlight(board, loc, false).len() == board.len(),
{
    let after = with_highlight(board, loc, false);
    lemma_with_highlight(board, loc, false);
    if no_flags(board) {
        assert forall|other: TreeLocation| #[trigger] resolves(after, other) implies !highlight_at(
            after,
            other,
        ) by {
            assert(resolves(board, other));
        }
    }
    if storable(board) {
        assert forall|s: int| 0 <= s < after.len() implies (#[trigger] after[s]).list.todos.len()
            <= usize::MAX by {
            assert(board[s].list.todos.len() <= usize::MAX);
        }
    }
}

/// Once the flags of what is dragged and of what is hovered are cleared,
/// a board on which nothing else was highlighted has no highlight.
proof fn lemma_calmed_has_no_flags(
    board: Seq<SlotView>,
    info: Highlight,
    dragged: TreeLocation,
)
    requires
        flags_within(board, info),
        info.dragging matches Some((d_loc, _)) ==> d_loc == dragged,
    ensures
        no_flags(calmed(board, dragged, info.hovered)),
        storable(board) ==> storable(calmed(board, dragged, info.hovered)),
        calmed(board, dragged, info.hovered).len() == board.len(),
{
    let first = with_highlight(board, dragged, false);
    lemma_with_highlight(board, dragged, false);
    lemma_clearing_keeps_no_flags(board, dragged);
    let calm = calmed(board, dragged, info.hovered);
    match info.hovered {
        Some(h_loc) => {
            lemma_with_highlight(first, h_loc, false);
            lemma_clearing_keeps_no_flags(first, h_loc);
        },
        None => {},
    }
    assert forall|loc: TreeLocation| #[trigger] resolves(calm, loc) implies !highlight_at(
        calm,
        loc,
    ) by {
        assert(resolves(first, loc));
        assert(resolves(board, loc));
    }
}

/// Taking an item out of a list without highlight leaves no highlight.
proof fn lemma_plain_after_remove(todos: Seq<TodoView>, i: int)
    requires
        plain(todos),
        0 <= i < todos.len(),
    ensures
        plain(todos.remove(i)),
        !todos[i].highlight,
{
    let rest = todos.remove(i);
    assert forall|k: int| 0 <= k < rest.len() implies !(#[trigger] rest[k]).highlight by {
        if k < i {
            assert(rest[k] == todos[k]);
        } else {
            assert(rest[k] == todos[k + 1]);
        }
    }
}

/// Putting an item without highlight into a list without highlight leaves
/// no highlight.
proof fn lemma_plain_after_insert(todos: Seq<TodoView>, j: int, item: TodoView)
    requires
        plain(todos),
        0 <= j <= todos.len(),
        !item.highlight,
    ensures
        plain(todos.insert(j, item)),
{
    let more = todos.insert(j, item);
    assert forall|k: int| 0 <= k < more.len() implies !(#[trigger] more[k]).highlight by {
        if k < j {
            assert(more[k] == todos[k]);
        } else if k > j {
            assert(more[k] == todos[k - 1]);
        }
    }
}

/// Dropping an item on a list leaves a board without highlight without
/// highlight.
proof fn lemma_drop_on_list_keeps_no_flags(
    board: Seq<SlotView>,
    d_loc: TreeLocation,
    h_loc: TreeLocation,
)
    requires
        storable(board),
        no_flags(board),
    ensures
        no_flags(after_drop_on_list(board, d_loc, h_loc)),
{
    if resolves(board, d_loc) && d_loc.is_todo() {
        let first = with_highlight(board, d_loc, false);
        lemma_clearing_keeps_no_flags(board, d_loc);
        if h_loc.slot < board.len() {
            let calm = with_highlight(first, list_in(h_loc.slot), false);
            lemma_clearing_keeps_no_flags(first, list_in(h_loc.slot));
            lemma_with_highlight(board, d_loc, false);
            lemma_with_highlight(first, list_in(h_loc.slot), false);
            if d_loc.slot != h_loc.slot {
                let from = d_loc.slot as int;
                let to = h_loc.slot as int;
                let index = d_loc.element->Todo_0 as int;
                assert(resolves(calm, d_loc));
                lemma_no_flags_parts(calm, from);
                lemma_plain_after_remove(calm[from].list.todos, index);
                let item = calm[from].list.todos[index];
                let taken = with_todos(calm, from, calm[from].list.todos.remove(index));
                lemma_plain_todos_keep_no_flags(calm, from, calm[from].list.todos.remove(index));
                lemma_storable_with_todos(calm, from, calm[from].list.todos.remove(index));
                lemma_no_flags_parts(taken, to);
                lemma_plain_after_insert(
                    taken[to].list.todos,
                    taken[to].list.todos.len() as int,
                    item,
                );
                assert(taken[to].list.todos.push(item) =~= taken[to].list.todos.insert(
                    taken[to].list.todos.len() as int,
                    item,
                ));
                lemma_plain_todos_keep_no_flags(taken, to, taken[to].list.todos.push(item));
            }
        }
    }
}

/// Shorter or equally long items in one list leave a board that memory can
/// hold one that it can hold.
proof fn lemma_storable_with_todos(board: Seq<SlotView>, s: int, todos: Seq<TodoView>)
    requires
        storable(board),
        0 <= s < board.len(),
        todos.len() <= board[s].list.todos.len(),
    ensures
        storable(with_todos(board, s, todos)),
{
    let after = with_todos(board, s, todos);
    assert forall|k: int| 0 <= k < after.len() implies (#[trigger] after[k]).list.todos.len()
        <= usize::MAX by {
        assert(board[k].list.todos.len() <= usize::MAX);
    }
}

/// Dropping an item on an item leaves a board without highlight without
/// highlight.
proof fn lemma_drop_on_todo_keeps_no_flags(
    board: Seq<SlotView>,
    d_loc: TreeLocation,
    h_loc: TreeLocation,
)
    requires
        storable(board),
        no_flags(board),
    ensures
        no_flags(after_drop_on_todo(board, d_loc, h_loc)),
{
    if resolves(board, d_loc) && d_loc.is_todo() {
        let first = with_highlight(board, d_loc, false);
        lemma_clearing_keeps_no_flags(board, d_loc);
        if resolves(board, h_loc) && h_loc.is_todo() {
            let calm = with_highlight(first, h_loc, false);
            lemma_clearing_keeps_no_flags(first, h_loc);
            lemma_with_highlight(board, d_loc, false);
            lemma_with_highlight(first, h_loc, false);
            let from = d_loc.slot as int;
            let to = h_loc.slot as int;
            let i = d_loc.element->Todo_0 as int;
            let j = h_loc.element->Todo_0 as int;
            assert(resolves(calm, d_loc));
            assert(resolves(calm, h_loc));
            lemma_no_flags_parts(calm, from);
            lemma_plain_after_remove(calm[from].list.todos, i);
            let item = calm[from].list.todos[i];
            let rest = calm[from].list.todos.remove(i);
            if from != to {
                let taken = with_todos(calm, from, rest);
                lemma_plain_todos_keep_no_flags(calm, from, rest);
                lemma_storable_with_todos(calm, from, rest);
                lemma_no_flags_parts(taken, to);
                lemma_plain_after_insert(taken[to].list.todos, j, item);
                lemma_plain_todos_keep_no_flags(taken, to, taken[to].list.todos.insert(j, item));
            } else {
                let place = if i < j {
                    j - 1
                } else {
                    j
                };
                lemma_plain_after_insert(rest, place, item);
                lemma_plain_todos_keep_no_flags(
                    calm,
                    from,
                    moved(calm[from].list.todos, i, j),
                );
            }
        }
    }
}

/// Exchanging the lists of two slots leaves a board without highlight
/// without highlight.
proof fn lemma_swap_keeps_no_flags(board: Seq<SlotView>, a: usize, b: usize)
    requires
        no_flags(board),
    ensures
        no_flags(with_lists_swapped(board, a as int, b as int)),
{
    let after = with_lists_swapped(board, a as int, b as int);
    if a < board.len() && b < board.len() && a != b {
        assert forall|loc: TreeLocation| #[trigger] resolves(after, loc) implies !highlight_at(
            after,
            loc,
        ) by {
            let source = if loc.slot == a {
                b
            } else if loc.slot == b {
                a
            } else {
                loc.slot
            };
            match loc.element {
                TreeElement::Slot => {
                    assert(resolves(board, loc));
                },
                _ => {
                    assert(after[loc.slot as int].list == board[source as int].list);
                    assert(resolves(board, TreeLocation { slot: source, element: loc.element }));
                },
            }
        }
    }
}

/// A drop ends the drag of an item with no highlight left: where only what
/// is dragged and what is hovered was highlighted, no part of the board is
/// highlighted after the drop of the dragged item, whatever is hovered.
pub proof fn lemma_drop_clears_flags(board: Seq<SlotView>, info: Highlight, t_loc: TreeLocation)
    requires
        storable(board),
        flags_within(board, info),
        info.dragging matches Some((d_loc, _)) ==> d_loc == t_loc,
    ensures
        no_flags(after_drop(board, info, t_loc)),
{
    let calm = calmed(board, t_loc, info.hovered);
    lemma_calmed_has_no_flags(board, info, t_loc);
    match info.hovered {
        Some(h_loc) => match h_loc.element {
            TreeElement::List => {
                lemma_drop_on_list_keeps_no_flags(calm, t_loc, h_loc);
            },
            TreeElement::Todo(_) => {
                lemma_drop_on_todo_keeps_no_flags(calm, t_loc, h_loc);
            },
            TreeElement::Slot => {},
        },
        None => {
            if resolves(calm, t_loc) && t_loc.is_todo() {
                let from = t_loc.slot as int;
                let i = t_loc.element->Todo_0 as int;
                lemma_no_flags_parts(calm, from);
                lemma_plain_after_remove(calm[from].list.todos, i);
                lemma_plain_todos_keep_no_flags(calm, from, calm[from].list.todos.remove(i));
            }
        },
    }
}

/// Giving up the drag of an item ends it with no highlight left and every
/// part where it was: where only what is dragged and what is hovered was
/// highlighted, no part of the board is highlighted afterwards, and every
/// address names the part with the identity that it named before.
pub proof fn lemma_cancel_clears_flags(board: Seq<SlotView>, info: Highlight)
    requires
        flags_within(board, info),
    ensures
        no_flags(after_cancel(board, info)),
        forall|loc: TreeLocation| resolves(after_cancel(board, info), loc) == resolves(board, loc),
        forall|loc: TreeLocation|
            resolves(board, loc) ==> id_at(after_cancel(board, info), loc)
                == id_at(board, loc),
{
    match info.dragging {
        Some((d_loc, _)) => {
            lemma_calmed_has_no_flags(board, info, d_loc);
            lemma_with_highlight(board, d_loc, false);
            match info.hovered {
                Some(h_loc) => {
                    lemma_with_highlight(with_highlight(board, d_loc, false), h_loc, false);
                },
                None => {},
            }
        },
        None => {
            let after = with_hovered(board, info.hovered, false);
            match info.hovered {
                Some(h_loc) => {
                    lemma_with_highlight(board, h_loc, false);
                },
                None => {},
            }
            assert forall|loc: TreeLocation| #[trigger] resolves(after, loc) implies !highlight_at(
                after,
                loc,
            ) by {
                assert(resolves(board, loc));
            }
        },
    }
}

/// Once the flags of a dragged list, of its slot and of what is hovered are
/// cleared, a board on which nothing but what is dragged and what is
/// hovered was highlighted has no highlight.
proof fn lemma_list_drag_calmed_has_no_flags(
    board: Seq<SlotView>,
    info: Highlight,
    d_loc: TreeLocation,
)
    requires
        flags_within(board, info),
        info.dragging matches Some((dragged, _)) ==> dragged == d_loc && !d_loc.is_todo(),
    ensures
        no_flags(list_drag_calmed(board, d_loc, info.hovered)),
{
    let first = with_highlight(board, list_in(d_loc.slot), false);
    let second = with_highlight(first, slot_of(d_loc.slot), false);
    let calm = list_drag_calmed(board, d_loc, info.hovered);
    lemma_with_highlight(board, list_in(d_loc.slot), false);
    lemma_with_highlight(first, slot_of(d_loc.slot), false);
    match info.hovered {
        Some(h_loc) => {
            lemma_with_highlight(second, h_loc, false);
        },
        None => {},
    }
    assert forall|loc: TreeLocation| #[trigger] resolves(calm, loc) implies !highlight_at(
        calm,
        loc,
    ) by {
        assert(resolves(second, loc));
        assert(resolves(first, loc));
        assert(resolves(board, loc));
    }
}

/// A drop ends the drag of a list with no highlight left: where only what
/// is dragged and what is hovered was highlighted, no part of the board is
/// highlighted after the drop of the dragged list.
pub proof fn lemma_list_drop_clears_flags(board: Seq<SlotView>, info: Highlight, l_loc: TreeLocation)
    requires
        flags_within(board, info),
        info.dragging matches Some((d_loc, _)) ==> d_loc == l_loc && !l_loc.is_todo(),
    ensures
        no_flags(after_list_drop(board, info, l_loc)),
{
    lemma_list_drag_calmed_has_no_flags(board, info, l_loc);
    match info.hovered {
        Some(s_loc) => {
            lemma_swap_keeps_no_flags(
                list_drag_calmed(board, l_loc, info.hovered),
                l_loc.slot,
                s_loc.slot,
            );
        },
        None => {},
    }
}

/// Giving up the drag of a list ends it with no highlight left and every
/// part where it was: where only what is dragged and what is hovered was
/// highlighted, no part of the board is highlighted afterwards, and every
/// address names the part with the identity that it named before.
pub proof fn lemma_list_cancel_clears_flags(board: Seq<SlotView>, info: Highlight)
    requires
        flags_within(board, info),
        info.dragging matches Some((d_loc, _)) ==> !d_loc.is_todo(),
    ensures
        no_flags(after_list_cancel(board, info)),
        forall|loc: TreeLocation|
            resolves(after_list_cancel(board, info), loc) == resolves(board, loc),
        forall|loc: TreeLocation|
            resolves(board, loc) ==> id_at(after_list_cancel(board, info), loc)
                == id_at(board, loc),
{
    match info.dragging {
        Some((d_loc, _)) => {
            lemma_list_drag_calmed_has_no_flags(board, info, d_loc);
            let first = with_highlight(board, list_in(d_loc.slot), false);
            let second = with_highlight(first, slot_of(d_loc.slot), false);
            lemma_with_highlight(board, list_in(d_loc.slot), false);
            lemma_with_highlight(first, slot_of(d_loc.slot), false);
            match info.hovered {
                Some(h_loc) => {
                    lemma_with_highlight(second, h_loc, false);
                },
                None => {},
            }
        },
        None => {
            let after = with_hovered(board, info.hovered, false);
            match info.hovered {
                Some(h_loc) => {
                    lemma_with_highlight(board, h_loc, false);
                },
                None => {},
            }
            assert forall|loc: TreeLocation| #[trigger] resolves(after, loc) implies !highlight_at(
                after,
                loc,
            ) by {
                assert(resolves(board, loc));
            }
        },
    }
}

/// A list dropped on another slot changes places with the list there:
/// each of the two slots then holds the list, with every item, that the
/// other held, and every slot keeps its own identity.
pub proof fn lemma_list_drop_exchanges(board: Seq<SlotView>, info: Highlight, l_loc: TreeLocation)
    requires
        info.hovered matches Some(s_loc) && l_loc.slot < board.len() && s_loc.slot < board.len()
            && l_loc.slot != s_loc.slot,
    ensures
        ({
            let after = after_list_drop(board, info, l_loc);
            let here = l_loc.slot as int;
            let there = info.hovered->0.slot as int;
            &&& after.len() == board.len()
            &&& slot_ids(after) == slot_ids(board)
            &&& after[here].list.id == board[there].list.id
            &&& after[there].list.id == board[here].list.id
            &&& after[here].list.title == board[there].list.title
            &&& after[there].list.title == board[here].list.title
            &&& item_ids(after[here].list.todos) == item_ids(
                board[there].list.todos,
            )
            &&& item_ids(after[there].list.todos) == item_ids(
                board[here].list.todos,
            )
            &&& forall|s: int|
                0 <= s < board.len() && s != here && s != there ==> (#[trigger] after[s]).list.id
                    == board[s].list.id && item_ids(after[s].list.todos)
                    == item_ids(board[s].list.todos)
        }),
{
    let h_loc = info.hovered->0;
    let first = with_highlight(board, list_in(l_loc.slot), false);
    let second = with_highlight(first, slot_of(l_loc.slot), false);
    let calm = with_highlight(second, h_loc, false);
    let after = after_list_drop(board, info, l_loc);
    assert(calm == list_drag_calmed(board, l_loc, info.hovered));
    assert(calm.len() == board.len());
    assert forall|s: int| 0 <= s < board.len() implies (#[trigger] calm[s]).id == board[s].id
        && calm[s].list.id == board[s].list.id && calm[s].list.title == board[s].list.title
        && item_ids(calm[s].list.todos) == item_ids(
        board[s].list.todos,
    ) by {
        assert(item_ids(first[s].list.todos) =~= item_ids(
            board[s].list.todos,
        ));
        assert(item_ids(second[s].list.todos) =~= item_ids(
            first[s].list.todos,
        ));
        assert(item_ids(calm[s].list.todos) =~= item_ids(
            second[s].list.todos,
        ));
    }
    assert(slot_ids(after) =~= slot_ids(board));
}

} // verus!
