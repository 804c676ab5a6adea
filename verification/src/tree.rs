//! The board that items are dragged on: a row of slots, each holding one
//! list of to-do items, and the addresses that name its parts.
use crate::identity::{clone_id, same_id};
use iced::advanced::widget::Id;
use vstd::prelude::*;

verus! {

/// Which part of a slot an address names.
#[derive(Clone, Copy, Debug, PartialEq, Eq, Structural)]
pub enum TreeElement {
    Slot,
    List,
    Todo(usize),
}

/// The address of a part of the board: a slot by its position, and within it
/// the slot itself, the list it holds, or an item of that list by its index.
#[derive(Clone, Copy, Debug, PartialEq, Eq, Structural)]
pub struct TreeLocation {
    pub slot: usize,
    pub element: TreeElement,
}

impl TreeLocation {
    /// The address of `element` in the slot at position `slot`.
    pub fn new(slot: usize, element: TreeElement) -> (loc: TreeLocation)
        ensures
            loc.slot == slot,
            loc.element == element,
    {
        TreeLocation { slot, element }
    }

    /// The part of the slot that the address names.
    pub fn element(&self) -> (element: &TreeElement)
        ensures
            *element == self.element,
    {
        &self.element
    }

    /// The position of the slot.
    pub fn slot(&self) -> (slot: usize)
        ensures
            slot == self.slot,
    {
        self.slot
    }

    /// Whether the address names an item.
    pub open spec fn is_todo(self) -> bool {
        self.element is Todo
    }

    /// Whether this address is met before `other` when the board is walked
    /// slot by slot, in each slot first the slot, then its list, then the
    /// items in order.
    pub open spec fn comes_before(self, other: TreeLocation) -> bool {
        ||| self.slot < other.slot
        ||| self.slot == other.slot && match (self.element, other.element) {
            (TreeElement::Slot, TreeElement::Slot) => false,
            (TreeElement::Slot, _) => true,
            (TreeElement::List, TreeElement::Todo(_)) => true,
            (TreeElement::Todo(i), TreeElement::Todo(j)) => i < j,
            _ => false,
        }
    }
}

/// What an item is: its identity, its text, and its two flags.
pub struct TodoView {
    pub id: Id,
    pub content: Seq<char>,
    pub editing: bool,
    pub highlight: bool,
}

/// What a list is: its identity, its title, the text typed for the next
/// item, its items in order, and its highlight flag.
pub struct ListView {
    pub id: Id,
    pub title: Seq<char>,
    pub adder: Seq<char>,
    pub todos: Seq<TodoView>,
    pub highlight: bool,
}

/// What a slot is: its identity, the list it holds, and its highlight flag.
pub struct SlotView {
    pub id: Id,
    pub list: ListView,
    pub highlight: bool,
}

/// Something that can be shown highlighted.
pub trait Highlightable {
    /// Whether it is shown highlighted.
    spec fn highlighted(&self) -> bool;

    /// Sets or clears the highlight.
    fn set_highlight(&mut self, highlight: bool)
        ensures
            final(self).highlighted() == highlight,
    ;
}

/// A to-do item that can be dragged into a list.
pub struct Todo {
    pub content: String,
    pub editing: bool,
    pub id: Id,
    pub highlight: bool,
}

impl View for Todo {
    type V = TodoView;

    open spec fn view(&self) -> TodoView {
        TodoView {
            id: self.id,
            content: self.content@,
            editing: self.editing,
            highlight: self.highlight,
        }
    }
}

impl Highlightable for Todo {
    open spec fn highlighted(&self) -> bool {
        self.highlight
    }

    fn set_highlight(&mut self, highlight: bool)
        ensures
            final(self)@ == (TodoView { highlight, ..old(self)@ }),
    {
        self.highlight = highlight;
    }
}

impl Todo {
    /// A new item with the given identity and text, neither edited nor
    /// highlighted.
    pub fn new(id: Id, content: &str) -> (todo: Todo)
        ensures
            todo@ == (TodoView { id, content: content@, editing: false, highlight: false }),
    {
        Todo { id, content: content.to_owned(), highlight: false, editing: false }
    }
}

/// The line in which the next item of a list is typed.
pub struct ElementAdder {
    pub text: String,
}

impl ElementAdder {
    /// An empty line.
    pub fn new() -> (adder: ElementAdder)
        ensures
            adder.text@ == Seq::<char>::empty(),
    {
        ElementAdder { text: String::new() }
    }
}

/// A list of to-do items. It can be dragged into a slot, and items can be
/// dragged into it.
pub struct List {
    pub todo_adder: ElementAdder,
    pub id: Id,
    pub title: String,
    pub todos: Vec<Todo>,
    pub highlight: bool,
}

/// The items of a list as what they are.
pub open spec fn todo_views(todos: Seq<Todo>) -> Seq<TodoView> {
    todos.map_values(|todo: Todo| todo@)
}

impl View for List {
    type V = ListView;

    open spec fn view(&self) -> ListView {
        ListView {
            id: self.id,
            title: self.title@,
            adder: self.todo_adder.text@,
            todos: todo_views(self.todos@),
            highlight: self.highlight,
        }
    }
}

impl Highlightable for List {
    open spec fn highlighted(&self) -> bool {
        self.highlight
    }

    fn set_highlight(&mut self, highlight: bool)
        ensures
            final(self)@ == (ListView { highlight, ..old(self)@ }),
    {
        self.highlight = highlight;
    }
}

/// The items after the one at `from` has been taken out and put back so that
/// it stands where the one at `to` stood if it moved up, and just before it
/// if it moved down.
pub open spec fn moved(todos: Seq<TodoView>, from: int, to: int) -> Seq<TodoView>
    recommends
        0 <= from < todos.len(),
        0 <= to < todos.len(),
{
    todos.remove(from).insert(
        if from < to {
            to - 1
        } else {
            to
        },
        todos[from],
    )
}

impl List {
    /// A new list with the given identity, title and items, not highlighted
    /// and with nothing typed for the next item.
    pub fn new(id: Id, title: &str, todos: Vec<Todo>) -> (list: List)
        ensures
            list@ == (ListView {
                id,
                title: title@,
                adder: Seq::<char>::empty(),
                todos: todo_views(todos@),
                highlight: false,
            }),
    {
        List {
            id,
            title: title.to_owned(),
            todo_adder: ElementAdder::new(),
            todos,
            highlight: false,
        }
    }

    /// Takes the item at `loc` out of the list. Nothing happens where `loc`
    /// names no item of the list.
    pub fn remove(&mut self, loc: &TreeLocation) -> (taken: Option<Todo>)
        ensures
            match loc.element {
                TreeElement::Todo(i) if i < old(self)@.todos.len() => {
                    &&& taken matches Some(todo)
                    &&& todo@ == old(self)@.todos[i as int]
                    &&& final(self)@ == (ListView {
                        todos: old(self)@.todos.remove(i as int),
                        ..old(self)@
                    })
                },
                _ => taken is None && final(self)@ == old(self)@,
            },
    {
        match loc.element {
            TreeElement::Todo(i) => {
                if i < self.todos.len() {
                    let todo = self.todos.remove(i);
                    assert(todo_views(self.todos@) =~= todo_views(old(self).todos@).remove(
                        i as int,
                    ));
                    Some(todo)
                } else {
                    None
                }
            },
            _ => None,
        }
    }

    /// Appends an item to the list.
    pub fn push(&mut self, todo: Todo)
        ensures
            final(self)@ == (ListView { todos: old(self)@.todos.push(todo@), ..old(self)@ }),
    {
        self.todos.push(todo);
        assert(todo_views(self.todos@) =~= todo_views(old(self).todos@).push(todo@));
    }

    /// Puts an item into the list at `index`; the items from there on move
    /// one place back.
    pub fn insert(&mut self, todo: Todo, index: usize)
        requires
            index <= old(self)@.todos.len(),
        ensures
            final(self)@ == (ListView {
                todos: old(self)@.todos.insert(index as int, todo@),
                ..old(self)@
            }),
    {
        self.todos.insert(index, todo);
        assert(todo_views(self.todos@) =~= todo_views(old(self).todos@).insert(
            index as int,
            todo@,
        ));
    }

    /// Moves the item at `from` to the place of the item at `to`. Nothing
    /// happens unless both name items of the list.
    pub fn move_todo(&mut self, from: &TreeLocation, to: &TreeLocation)
        ensures
            match (from.element, to.element) {
                (TreeElement::Todo(i), TreeElement::Todo(j)) if i < old(self)@.todos.len() && j
                    < old(self)@.todos.len() => final(self)@ == (ListView {
                    todos: moved(old(self)@.todos, i as int, j as int),
                    ..old(self)@
                }),
                _ => final(self)@ == old(self)@,
            },
    {
        match (from.element, to.element) {
            (TreeElement::Todo(i), TreeElement::Todo(j)) => {
                if i < self.todos.len() && j < self.todos.len() {
                    let insert_index: usize = if i < j {
                        j - 1
                    } else {
                        j
                    };
                    let todo = self.todos.remove(i);
                    self.todos.insert(insert_index, todo);
                    assert(todo_views(self.todos@) =~= moved(
                        todo_views(old(self).todos@),
                        i as int,
                        j as int,
                    ));
                }
            },
            _ => (),
        }
    }

    /// The identity of the list.
    pub fn id(&self) -> (id: Id)
        ensures
            id == self@.id,
    {
        clone_id(&self.id)
    }
}

/// A place on the board that holds a list. Lists can be dragged from slot
/// to slot; the slots stay.
pub struct Slot {
    pub id: Id,
    pub list: List,
    pub highlight: bool,
}

impl View for Slot {
    type V = SlotView;

    open spec fn view(&self) -> SlotView {
        SlotView { id: self.id, list: self.list@, highlight: self.highlight }
    }
}

impl Highlightable for Slot {
    open spec fn highlighted(&self) -> bool {
        self.highlight
    }

    fn set_highlight(&mut self, highlight: bool)
        ensures
            final(self)@ == (SlotView { highlight, ..old(self)@ }),
    {
        self.highlight = highlight;
    }
}

impl Slot {
    /// A new slot with the given identity that holds `list`, not highlighted.
    pub fn new(id: Id, list: List) -> (slot: Slot)
        ensures
            slot@ == (SlotView { id, list: list@, highlight: false }),
    {
        Slot { id, list, highlight: false }
    }
}

/// The slots of a board as what they are.
pub open spec fn slot_views(slots: Seq<Slot>) -> Seq<SlotView> {
    slots.map_values(|slot: Slot| slot@)
}

/// Whether an address names a part of the board: its slot exists, and if it
/// names an item, the list in that slot has an item at that index.
pub open spec fn resolves(board: Seq<SlotView>, loc: TreeLocation) -> bool {
    &&& loc.slot < board.len()
    &&& (loc.element matches TreeElement::Todo(i) ==> i < board[loc.slot as int].list.todos.len())
}

/// The identity of the part that an address names.
pub open spec fn id_at(board: Seq<SlotView>, loc: TreeLocation) -> Id
    recommends
        resolves(board, loc),
{
    match loc.element {
        TreeElement::Slot => board[loc.slot as int].id,
        TreeElement::List => board[loc.slot as int].list.id,
        TreeElement::Todo(i) => board[loc.slot as int].list.todos[i as int].id,
    }
}

/// The highlight flag of the part that an address names.
pub open spec fn highlight_at(board: Seq<SlotView>, loc: TreeLocation) -> bool
    recommends
        resolves(board, loc),
{
    match loc.element {
        TreeElement::Slot => board[loc.slot as int].highlight,
        TreeElement::List => board[loc.slot as int].list.highlight,
        TreeElement::Todo(i) => board[loc.slot as int].list.todos[i as int].highlight,
    }
}

/// The board with another list in one slot.
pub open spec fn with_list(board: Seq<SlotView>, slot: int, list: ListView) -> Seq<SlotView>
    recommends
        0 <= slot < board.len(),
{
    board.update(slot, SlotView { list, ..board[slot] })
}

/// The board with other items in the list of one slot.
pub open spec fn with_todos(board: Seq<SlotView>, slot: int, todos: Seq<TodoView>) -> Seq<
    SlotView,
>
    recommends
        0 <= slot < board.len(),
{
    with_list(board, slot, ListView { todos, ..board[slot].list })
}

/// The board with the highlight flag of one part set or cleared. An address
/// that names no part changes nothing.
pub open spec fn with_highlight(board: Seq<SlotView>, loc: TreeLocation, highlight: bool) -> Seq<
    SlotView,
> {
    let slot = loc.slot as int;
    if !resolves(board, loc) {
        board
    } else {
        match loc.element {
            TreeElement::Slot => board.update(slot, SlotView { highlight, ..board[slot] }),
            TreeElement::List => with_list(
                board,
                slot,
                ListView { highlight, ..board[slot].list },
            ),
            TreeElement::Todo(i) => with_todos(
                board,
                slot,
                board[slot].list.todos.update(
                    i as int,
                    TodoView { highlight, ..board[slot].list.todos[i as int] },
                ),
            ),
        }
    }
}

/// The board with the lists of two slots exchanged. Nothing changes unless
/// both slots exist and differ.
pub open spec fn with_lists_swapped(board: Seq<SlotView>, a: int, b: int) -> Seq<SlotView> {
    if 0 <= a < board.len() && 0 <= b < board.len() && a != b {
        with_list(with_list(board, a, board[b].list), b, board[a].list)
    } else {
        board
    }
}

/// The index of the first item that has the identity `id`.
pub open spec fn first_with_id(todos: Seq<TodoView>, id: Id) -> Option<int>
    decreases todos.len(),
{
    if todos.len() == 0 {
        None
    } else {
        match first_with_id(todos.drop_last(), id) {
            Some(i) => Some(i),
            None => if todos.last().id == id {
                Some(todos.len() - 1)
            } else {
                None
            },
        }
    }
}

/// The address of the first part of the slot at `position` that has the
/// identity `id`: the slot, else its list, else the first such item.
pub open spec fn locate_in(slot: SlotView, position: int, id: Id) -> Option<TreeLocation> {
    if slot.id == id {
        Some(TreeLocation { slot: position as usize, element: TreeElement::Slot })
    } else if slot.list.id == id {
        Some(TreeLocation { slot: position as usize, element: TreeElement::List })
    } else {
        match first_with_id(slot.list.todos, id) {
            Some(i) => Some(
                TreeLocation { slot: position as usize, element: TreeElement::Todo(i as usize) },
            ),
            None => None,
        }
    }
}

/// The address of the first part of the board that has the identity `id`,
/// the slots taken in order.
pub open spec fn locate(board: Seq<SlotView>, id: Id) -> Option<TreeLocation>
    decreases board.len(),
{
    if board.len() == 0 {
        None
    } else {
        match locate(board.drop_last(), id) {
            Some(loc) => Some(loc),
            None => locate_in(board.last(), board.len() - 1, id),
        }
    }
}

/// The identities of the items but those equal to `dragged`, in order.
pub open spec fn ids_except(todos: Seq<TodoView>, dragged: Id) -> Seq<Id>
    decreases todos.len(),
{
    if todos.len() == 0 {
        Seq::empty()
    } else if todos.last().id == dragged {
        ids_except(todos.drop_last(), dragged)
    } else {
        ids_except(todos.drop_last(), dragged).push(todos.last().id)
    }
}

/// The identities of all items of the board but those equal to `dragged`,
/// slot by slot.
pub open spec fn todo_ids_except(board: Seq<SlotView>, dragged: Id) -> Seq<Id>
    decreases board.len(),
{
    if board.len() == 0 {
        Seq::empty()
    } else {
        todo_ids_except(board.drop_last(), dragged) + ids_except(board.last().list.todos, dragged)
    }
}

/// The identities of the items of a list, in order.
pub open spec fn item_ids(todos: Seq<TodoView>) -> Seq<Id> {
    todos.map_values(|todo: TodoView| todo.id)
}

/// The identities of the lists, slot by slot.
pub open spec fn list_ids(board: Seq<SlotView>) -> Seq<Id> {
    board.map_values(|slot: SlotView| slot.list.id)
}

/// The identities of the slots.
pub open spec fn slot_ids(board: Seq<SlotView>) -> Seq<Id> {
    board.map_values(|slot: SlotView| slot.id)
}

/// The identities on which the item at `loc` can be dropped: every other
/// item, then every list. Empty where `loc` names no item.
pub open spec fn todo_options_of(board: Seq<SlotView>, loc: TreeLocation) -> Seq<Id> {
    if resolves(board, loc) && loc.is_todo() {
        todo_ids_except(board, id_at(board, loc)) + list_ids(board)
    } else {
        Seq::empty()
    }
}

/// Items organized by slots and lists.
pub struct TreeData {
    pub slots: Vec<Slot>,
}

impl View for TreeData {
    type V = Seq<SlotView>;

    open spec fn view(&self) -> Seq<SlotView> {
        slot_views(self.slots@)
    }
}

impl TreeData {
    /// The board with these slots.
    pub fn new(slots: Vec<Slot>) -> (tree: TreeData)
        ensures
            tree@ == slot_views(slots@),
    {
        TreeData { slots }
    }

    /// Tests whether `location` names a part of the board.
    pub fn resolves(&self, location: &TreeLocation) -> (ok: bool)
        ensures
            ok == resolves(self@, *location),
    {
        if location.slot >= self.slots.len() {
            return false;
        }
        match location.element {
            TreeElement::Todo(i) => i < self.slots[location.slot].list.todos.len(),
            _ => true,
        }
    }

    /// The address of the part of the board with the identity `id`, the
    /// first one where several have it.
    pub fn find(&self, id: &Id) -> (found: Option<TreeLocation>)
        ensures
            found == locate(self@, *id),
    {
        let mut i: usize = 0;
        while i < self.slots.len()
            invariant
                i <= self.slots.len(),
                locate(self@.take(i as int), *id) is None,
            decreases self.slots.len() - i,
        {
            let slot = &self.slots[i];
            proof {
                assert(self@.take(i + 1).drop_last() =~= self@.take(i as int));
                assert(self@.take(i + 1).last() == slot@);
                if i + 1 == self.slots.len() {
                    assert(self@.take(i + 1) =~= self@);
                }
            }
            let ghost rest = self@.subrange(i + 1, self@.len() as int);
            if same_id(&slot.id, id) {
                proof {
                    lemma_locate_prefix(self@.take(i + 1), rest, *id);
                    assert(self@.take(i + 1) + rest =~= self@);
                }
                return Some(TreeLocation::new(i, TreeElement::Slot));
            }
            if same_id(&slot.list.id, id) {
                proof {
                    lemma_locate_prefix(self@.take(i + 1), rest, *id);
                    assert(self@.take(i + 1) + rest =~= self@);
                }
                return Some(TreeLocation::new(i, TreeElement::List));
            }
            let mut j: usize = 0;
            while j < slot.list.todos.len()
                invariant
                    j <= slot.list.todos.len(),
                    first_with_id(slot@.list.todos.take(j as int), *id) is None,
                    i < self.slots.len(),
                    slot@ == self@[i as int],
                    self@.take(i + 1).last() == slot@,
                    self@.take(i + 1).drop_last() == self@.take(i as int),
                    locate(self@.take(i as int), *id) is None,
                    slot@.id != *id,
                    slot@.list.id != *id,
                    rest == self@.subrange(i + 1, self@.len() as int),
                decreases slot.list.todos.len() - j,
            {
                proof {
                    assert(slot@.list.todos.take(j + 1).drop_last() =~= slot@.list.todos.take(
                        j as int,
                    ));
                    assert(slot@.list.todos.take(j + 1).last() == slot.list.todos[j as int]@);
                }
                if same_id(&slot.list.todos[j].id, id) {
                    proof {
                        lemma_first_with_id_prefix(
                            slot@.list.todos.take(j + 1),
                            slot@.list.todos.subrange(j + 1, slot@.list.todos.len() as int),
                            *id,
                        );
                        assert(slot@.list.todos.take(j + 1) + slot@.list.todos.subrange(
                            j + 1,
                            slot@.list.todos.len() as int,
                        ) =~= slot@.list.todos);
                        lemma_locate_prefix(self@.take(i + 1), rest, *id);
                        assert(self@.take(i + 1) + rest =~= self@);
                    }
                    return Some(TreeLocation::new(i, TreeElement::Todo(j)));
                }
                j += 1;
            }
            proof {
                assert(slot@.list.todos.take(j as int) =~= slot@.list.todos);
            }
            i += 1;
        }
        proof {
            assert(self@.take(i as int) =~= self@);
        }
        None
    }

    /// The item at `location`, if `location` names one.
    pub fn todo(&self, location: &TreeLocation) -> (todo: Option<&Todo>)
        ensures
            match todo {
                Some(t) => {
                    &&& resolves(self@, *location)
                    &&& location.element matches TreeElement::Todo(i)
                    &&& t@ == self@[location.slot as int].list.todos[i as int]
                },
                None => !(resolves(self@, *location) && location.is_todo()),
            },
    {
        if location.slot >= self.slots.len() {
            return None;
        }
        match location.element {
            TreeElement::Todo(j) => {
                if j < self.slots[location.slot].list.todos.len() {
                    Some(&self.slots[location.slot].list.todos[j])
                } else {
                    None
                }
            },
            _ => None,
        }
    }

    /// Sets or clears the highlight flag of the part at `location`. Nothing
    /// happens where `location` names no part.
    pub fn set_highlight(&mut self, location: &TreeLocation, highlight: bool)
        ensures
            final(self)@ == with_highlight(old(self)@, *location, highlight),
    {
        if !self.resolves(location) {
            return ;
        }
        let s: usize = location.slot;
        match location.element {
            TreeElement::Slot => {
                self.slots[s].set_highlight(highlight);
            },
            TreeElement::List => {
                self.slots[s].list.set_highlight(highlight);
            },
            TreeElement::Todo(i) => {
                self.slots[s].list.todos[i].set_highlight(highlight);
                assert(self@[s as int].list.todos =~= old(self)@[s as int].list.todos.update(
                    i as int,
                    TodoView { highlight, ..old(self)@[s as int].list.todos[i as int] },
                ));
            },
        }
        assert(self@ =~= with_highlight(old(self)@, *location, highlight));
    }

    /// Sets or clears the highlight flag of the part with the identity `id`,
    /// the first one where several have it. Nothing happens where no part
    /// has it.
    pub fn set_highlight_of(&mut self, id: &Id, highlight: bool)
        ensures
            final(self)@ == match locate(old(self)@, *id) {
                Some(location) => with_highlight(old(self)@, location, highlight),
                None => old(self)@,
            },
    {
        match self.find(id) {
            Some(location) => {
                self.set_highlight(&location, highlight);
            },
            None => (),
        }
    }

    /// Takes the item at `location` off the board. Nothing happens where
    /// `location` names no item.
    pub fn remove(&mut self, location: &TreeLocation) -> (taken: Option<Todo>)
        ensures
            match location.element {
                TreeElement::Todo(i) if resolves(old(self)@, *location) => {
                    &&& taken matches Some(todo)
                    &&& todo@ == old(self)@[location.slot as int].list.todos[i as int]
                    &&& final(self)@ == with_todos(
                        old(self)@,
                        location.slot as int,
                        old(self)@[location.slot as int].list.todos.remove(i as int),
                    )
                },
                _ => taken is None && final(self)@ == old(self)@,
            },
    {
        if !self.resolves(location) {
            return None;
        }
        let taken = self.slots[location.slot].list.remove(location);
        assert(self@ =~= slot_views(old(self).slots@).update(
            location.slot as int,
            self@[location.slot as int],
        ));
        taken
    }

    /// Appends an item to the list in the slot at `slot`.
    pub fn push(&mut self, slot: usize, todo: Todo)
        requires
            slot < old(self)@.len(),
        ensures
            final(self)@ == with_todos(
                old(self)@,
                slot as int,
                old(self)@[slot as int].list.todos.push(todo@),
            ),
    {
        self.slots[slot].list.push(todo);
        assert(self@ =~= slot_views(old(self).slots@).update(slot as int, self@[slot as int]));
    }

    /// Puts an item into the list in the slot at `slot`, at `index`.
    pub fn insert(&mut self, slot: usize, todo: Todo, index: usize)
        requires
            slot < old(self)@.len(),
            index <= old(self)@[slot as int].list.todos.len(),
        ensures
            final(self)@ == with_todos(
                old(self)@,
                slot as int,
                old(self)@[slot as int].list.todos.insert(index as int, todo@),
            ),
    {
        self.slots[slot].list.insert(todo, index);
        assert(self@ =~= slot_views(old(self).slots@).update(slot as int, self@[slot as int]));
    }

    /// Moves the item at `from` to the place of the item at `to` in the same
    /// list. Nothing happens unless both name items of one list.
    pub fn move_todo(&mut self, from: &TreeLocation, to: &TreeLocation)
        ensures
            final(self)@ == match (from.element, to.element) {
                (TreeElement::Todo(i), TreeElement::Todo(j)) if from.slot == to.slot && resolves(
                    old(self)@,
                    *from,
                ) && resolves(old(self)@, *to) => with_todos(
                    old(self)@,
                    from.slot as int,
                    moved(old(self)@[from.slot as int].list.todos, i as int, j as int),
                ),
                _ => old(self)@,
            },
    {
        if from.slot != to.slot || !self.resolves(from) || !self.resolves(to) {
            return ;
        }
        self.slots[from.slot].list.move_todo(from, to);
        assert(self@ =~= slot_views(old(self).slots@).update(
            from.slot as int,
            self@[from.slot as int],
        ));
    }

    /// Exchanges the lists of the slots that the two addresses lie in. The
    /// slots keep their identities and flags. Nothing happens unless both
    /// slots exist and differ.
    pub fn swap_lists(&mut self, l1: &TreeLocation, l2: &TreeLocation)
        ensures
            final(self)@ == with_lists_swapped(old(self)@, l1.slot as int, l2.slot as int),
    {
        let n: usize = self.slots.len();
        if l1.slot >= n || l2.slot >= n || l1.slot == l2.slot {
            return ;
        }
        let (low, high): (usize, usize) = if l1.slot < l2.slot {
            (l1.slot, l2.slot)
        } else {
            (l2.slot, l1.slot)
        };
        let mut high_slot = self.slots.remove(high);
        let mut low_slot = self.slots.remove(low);
        std::mem::swap(&mut low_slot.list, &mut high_slot.list);
        self.slots.insert(low, low_slot);
        self.slots.insert(high, high_slot);
        assert(self@ =~= with_lists_swapped(old(self)@, l1.slot as int, l2.slot as int));
    }

    /// The identities on which the item at `t_loc` can be dropped: every
    /// other item, then every list.
    pub fn todo_options(&self, t_loc: &TreeLocation) -> (options: Vec<Id>)
        ensures
            options@ == todo_options_of(self@, *t_loc),
    {
        let mut options: Vec<Id> = Vec::new();
        let todo_id = match self.todo(t_loc) {
            Some(todo) => clone_id(&todo.id),
            None => {
                return options;
            },
        };
        let mut i: usize = 0;
        while i < self.slots.len()
            invariant
                i <= self.slots.len(),
                options@ == todo_ids_except(self@.take(i as int), todo_id),
            decreases self.slots.len() - i,
        {
            let slot = &self.slots[i];
            let ghost before = options@;
            let mut j: usize = 0;
            while j < slot.list.todos.len()
                invariant
                    j <= slot.list.todos.len(),
                    options@ == before + ids_except(slot@.list.todos.take(j as int), todo_id),
                decreases slot.list.todos.len() - j,
            {
                proof {
                    assert(slot@.list.todos.take(j + 1).drop_last() =~= slot@.list.todos.take(
                        j as int,
                    ));
                    assert(slot@.list.todos.take(j + 1).last() == slot.list.todos[j as int]@);
                }
                if !same_id(&slot.list.todos[j].id, &todo_id) {
                    options.push(clone_id(&slot.list.todos[j].id));
                }
                j += 1;
            }
            proof {
                assert(slot@.list.todos.take(j as int) =~= slot@.list.todos);
                assert(self@.take(i + 1).drop_last() =~= self@.take(i as int));
                assert(self@.take(i + 1).last() == slot@);
            }
            i += 1;
        }
        proof {
            assert(self@.take(i as int) =~= self@);
        }
        let ghost items = options@;
        let mut k: usize = 0;
        while k < self.slots.len()
            invariant
                k <= self.slots.len(),
                options@ == items + list_ids(self@).take(k as int),
            decreases self.slots.len() - k,
        {
            options.push(clone_id(&self.slots[k].list.id));
            proof {
                assert(list_ids(self@).take(k + 1) =~= list_ids(self@).take(k as int).push(
                    self@[k as int].list.id,
                ));
            }
            k += 1;
        }
        proof {
            assert(list_ids(self@).take(k as int) =~= list_ids(self@));
        }
        options
    }

    /// The identities on which a list can be dropped: those of the slots.
    pub fn list_options(&self) -> (options: Vec<Id>)
        ensures
            options@ == slot_ids(self@),
    {
        let mut options: Vec<Id> = Vec::new();
        let mut k: usize = 0;
        while k < self.slots.len()
            invariant
                k <= self.slots.len(),
                options@ == slot_ids(self@).take(k as int),
            decreases self.slots.len() - k,
        {
            options.push(clone_id(&self.slots[k].id));
            proof {
                assert(slot_ids(self@).take(k + 1) =~= slot_ids(self@).take(k as int).push(
                    self@[k as int].id,
                ));
            }
            k += 1;
        }
        proof {
            assert(slot_ids(self@).take(k as int) =~= slot_ids(self@));
        }
        options
    }
}

/// Once an item with the identity is found among the first items, more
/// items behind them do not change which one is first.
pub proof fn lemma_first_with_id_prefix(front: Seq<TodoView>, back: Seq<TodoView>, id: Id)
    requires
        first_with_id(front, id) is Some,
    ensures
        first_with_id(front + back, id) == first_with_id(front, id),
    decreases back.len(),
{
    if back.len() == 0 {
        assert(front + back =~= front);
    } else {
        lemma_first_with_id_prefix(front, back.drop_last(), id);
        assert((front + back).drop_last() =~= front + back.drop_last());
    }
}

/// Once a part with the identity is found in the first slots, more slots
/// behind them do not change which part is first.
pub proof fn lemma_locate_prefix(front: Seq<SlotView>, back: Seq<SlotView>, id: Id)
    requires
        locate(front, id) is Some,
    ensures
        locate(front + back, id) == locate(front, id),
    decreases back.len(),
{
    if back.len() == 0 {
        assert(front + back =~= front);
    } else {
        lemma_locate_prefix(front, back.drop_last(), id);
        assert((front + back).drop_last() =~= front + back.drop_last());
    }
}

/// Setting or clearing the flag of one part changes that flag and nothing
/// else: the same addresses name parts, the part has the flag asked for, and
/// every other part has the flag and the identity it had.
pub proof fn lemma_with_highlight(board: Seq<SlotView>, loc: TreeLocation, highlight: bool)
    ensures
        with_highlight(board, loc, highlight).len() == board.len(),
        forall|other: TreeLocation|
            resolves(with_highlight(board, loc, highlight), other) == resolves(board, other),
        resolves(board, loc) ==> highlight_at(with_highlight(board, loc, highlight), loc)
            == highlight,
        forall|other: TreeLocation|
            resolves(board, other) && other != loc ==> highlight_at(
                with_highlight(board, loc, highlight),
                other,
            ) == highlight_at(board, other),
        forall|other: TreeLocation|
            resolves(board, other) ==> id_at(with_highlight(board, loc, highlight), other)
                == id_at(board, other),
{
}

/// Whether the board is one that memory can hold: no more slots, and in no
/// list more items, than an index can count.
pub open spec fn storable(board: Seq<SlotView>) -> bool {
    &&& board.len() <= usize::MAX
    &&& forall|s: int| 0 <= s < board.len() ==> (#[trigger] board[s]).list.todos.len() <= usize::MAX
}

/// Whether no two parts of the board have the same identity.
pub open spec fn distinct_ids(board: Seq<SlotView>) -> bool {
    forall|a: TreeLocation, b: TreeLocation|
        resolves(board, a) && resolves(board, b) && #[trigger] id_at(board, a) == #[trigger] id_at(
            board,
            b,
        ) ==> a == b
}

impl TreeData {
    /// The board of a `TreeData` is one that memory can hold.
    pub proof fn lemma_storable(&self)
        ensures
            storable(self@),
    {
        assert(self@.len() == self.slots.len());
        assert forall|s: int| 0 <= s < self@.len() implies (#[trigger] self@[s]).list.todos.len()
            <= usize::MAX by {
            assert(self@[s].list.todos.len() == self.slots@[s].list.todos.len());
        }
    }
}

/// `first_with_id` gives the index of an item with the identity before
/// which no item has it, and nothing exactly where no item has it.
pub proof fn lemma_first_with_id(todos: Seq<TodoView>, id: Id)
    ensures
        match first_with_id(todos, id) {
            Some(i) => {
                &&& 0 <= i < todos.len()
                &&& todos[i].id == id
                &&& forall|k: int| 0 <= k < i ==> (#[trigger] todos[k]).id != id
            },
            None => forall|k: int| 0 <= k < todos.len() ==> (#[trigger] todos[k]).id != id,
        },
    decreases todos.len(),
{
    if todos.len() > 0 {
        lemma_first_with_id(todos.drop_last(), id);
        assert forall|k: int| 0 <= k < todos.len() - 1 implies todos[k] == todos.drop_last()[k] by {}
    }
}

/// `locate` gives the address of a part with the identity before which no
/// part has it, and nothing exactly where no part has it.
pub proof fn lemma_locate_is_first(board: Seq<SlotView>, id: Id)
    requires
        storable(board),
    ensures
        match locate(board, id) {
            Some(loc) => {
                &&& resolves(board, loc)
                &&& id_at(board, loc) == id
                &&& forall|other: TreeLocation|
                    resolves(board, other) && #[trigger] other.comes_before(loc) ==> id_at(
                        board,
                        other,
                    ) != id
            },
            None => forall|other: TreeLocation|
                #[trigger] resolves(board, other) ==> id_at(board, other) != id,
        },
    decreases board.len(),
{
    if board.len() > 0 {
        let front = board.drop_last();
        let last = board.len() - 1;
        assert forall|s: int| 0 <= s < front.len() implies (#[trigger] front[s]).list.todos.len()
            <= usize::MAX by {
            assert(front[s] == board[s]);
        }
        lemma_locate_is_first(front, id);
        lemma_first_with_id(board[last].list.todos, id);
        assert forall|other: TreeLocation| other.slot < last implies resolves(front, other)
            == resolves(board, other) && id_at(front, other) == id_at(board, other) by {
            assert(front[other.slot as int] == board[other.slot as int]);
        }
        match locate(front, id) {
            Some(loc) => {
                assert(resolves(front, loc));
                assert forall|other: TreeLocation|
                    resolves(board, other) && #[trigger] other.comes_before(loc) implies id_at(
                    board,
                    other,
                ) != id by {
                    assert(resolves(front, other));
                }
            },
            None => {
                assert forall|other: TreeLocation|
                    #[trigger] resolves(board, other) && other.slot < last implies id_at(
                    board,
                    other,
                ) != id by {
                    assert(resolves(front, other));
                }
            },
        }
    }
}

/// On a board where all identities differ, looking up the identity of a
/// part gives the address of that part.
pub proof fn lemma_locate_own_address(board: Seq<SlotView>, loc: TreeLocation)
    requires
        storable(board),
        distinct_ids(board),
        resolves(board, loc),
    ensures
        locate(board, id_at(board, loc)) == Some(loc),
{
    lemma_locate_is_first(board, id_at(board, loc));
}

/// The identities of the items but `dragged` are those of the items that
/// differ from `dragged`.
pub proof fn lemma_ids_except(todos: Seq<TodoView>, dragged: Id, id: Id)
    ensures
        ids_except(todos, dragged).contains(id) <==> id != dragged && exists|k: int|
            0 <= k < todos.len() && (#[trigger] todos[k]).id == id,
    decreases todos.len(),
{
    if todos.len() > 0 {
        let front = todos.drop_last();
        lemma_ids_except(front, dragged, id);
        let kept = ids_except(front, dragged);
        if ids_except(todos, dragged).contains(id) {
            if kept.contains(id) {
                let k = choose|k: int| 0 <= k < front.len() && (#[trigger] front[k]).id == id;
                assert(todos[k].id == id);
            } else {
                let m = choose|m: int|
                    0 <= m < ids_except(todos, dragged).len() && ids_except(todos, dragged)[m] == id;
                assert(todos[todos.len() - 1].id == id);
            }
        }
        if id != dragged && exists|k: int| 0 <= k < todos.len() && (#[trigger] todos[k]).id == id {
            let k = choose|k: int| 0 <= k < todos.len() && (#[trigger] todos[k]).id == id;
            if k < front.len() {
                assert(front[k].id == id);
                let m = choose|m: int| 0 <= m < kept.len() && kept[m] == id;
                assert(ids_except(todos, dragged)[m] == id);
            } else {
                assert(ids_except(todos, dragged)[kept.len() as int] == id);
            }
        }
    }
}

/// The identities of all items but `dragged` are those of the items of the
/// board that differ from `dragged`.
pub proof fn lemma_todo_ids_except(board: Seq<SlotView>, dragged: Id, id: Id)
    ensures
        todo_ids_except(board, dragged).contains(id) <==> id != dragged && exists|s: int, k: int|
            0 <= s < board.len() && 0 <= k < board[s].list.todos.len()
                && (#[trigger] board[s].list.todos[k]).id == id,
    decreases board.len(),
{
    if board.len() > 0 {
        let front = board.drop_last();
        let last = board.len() - 1;
        lemma_todo_ids_except(front, dragged, id);
        lemma_ids_except(board[last].list.todos, dragged, id);
        let early = todo_ids_except(front, dragged);
        let late = ids_except(board[last].list.todos, dragged);
        if (early + late).contains(id) {
            let m = choose|m: int| 0 <= m < (early + late).len() && (early + late)[m] == id;
            if m < early.len() {
                assert(early[m] == id);
                let (s, k) = choose|s: int, k: int|
                    0 <= s < front.len() && 0 <= k < front[s].list.todos.len()
                        && (#[trigger] front[s].list.todos[k]).id == id;
                assert(board[s].list.todos[k].id == id);
            } else {
                assert(late[m - early.len()] == id);
                let k = choose|k: int|
                    0 <= k < board[last].list.todos.len() && (#[trigger] board[last].list.todos[k]).id
                        == id;
                assert(board[last].list.todos[k].id == id);
            }
        }
        if id != dragged && exists|s: int, k: int|
            0 <= s < board.len() && 0 <= k < board[s].list.todos.len()
                && (#[trigger] board[s].list.todos[k]).id == id {
            let (s, k) = choose|s: int, k: int|
                0 <= s < board.len() && 0 <= k < board[s].list.todos.len()
                    && (#[trigger] board[s].list.todos[k]).id == id;
            if s < last {
                assert(front[s].list.todos[k].id == id);
                let m = choose|m: int| 0 <= m < early.len() && early[m] == id;
                assert((early + late)[m] == id);
            } else {
                assert(board[last].list.todos[k].id == id);
                let m = choose|m: int| 0 <= m < late.len() && late[m] == id;
                assert((early + late)[early.len() + m] == id);
            }
        }
    }
}

/// What is dragged is never offered as its own target, and everything else
/// that an item can be dropped on is: on a board where all identities
/// differ, the options for a dragged item hold the identity of every other
/// item and of every list, and not its own.
pub proof fn lemma_dragged_not_offered(board: Seq<SlotView>, loc: TreeLocation)
    requires
        storable(board),
        distinct_ids(board),
        resolves(board, loc),
        loc.is_todo(),
    ensures
        !todo_options_of(board, loc).contains(id_at(board, loc)),
        forall|other: TreeLocation|
            #[trigger] resolves(board, other) && other != loc && !(other.element is Slot)
                ==> todo_options_of(board, loc).contains(id_at(board, other)),
{
    let dragged = id_at(board, loc);
    let items = todo_ids_except(board, dragged);
    let lists = list_ids(board);
    lemma_todo_ids_except(board, dragged, dragged);
    if (items + lists).contains(dragged) {
        let m = choose|m: int| 0 <= m < (items + lists).len() && (items + lists)[m] == dragged;
        if m < items.len() {
            assert(items[m] == dragged);
        } else {
            let s = m - items.len();
            assert(lists[s] == dragged);
            let of_list = TreeLocation { slot: s as usize, element: TreeElement::List };
            assert(resolves(board, of_list));
            assert(id_at(board, of_list) == id_at(board, loc));
        }
    }
    assert forall|other: TreeLocation|
        #[trigger] resolves(board, other) && other != loc && !(other.element is Slot)
        implies todo_options_of(board, loc).contains(id_at(board, other)) by {
        let id = id_at(board, other);
        match other.element {
            TreeElement::Todo(k) => {
                assert(id_at(board, other) != id_at(board, loc));
                lemma_todo_ids_except(board, dragged, id);
                assert(board[other.slot as int].list.todos[k as int].id == id);
                let m = choose|m: int| 0 <= m < items.len() && items[m] == id;
                assert((items + lists)[m] == id);
            },
            _ => {
                assert(lists[other.slot as int] == id);
                assert((items + lists)[items.len() + other.slot] == id);
            },
        }
    }
}

} // verus!
