//! Highlighting of what is dragged and of the zone it would drop on.
use crate::geometry::Rectangle;
use crate::tree::{
    highlight_at, lemma_with_highlight, resolves, with_highlight, SlotView, TreeData, TreeElement,
    TreeLocation,
};
use vstd::prelude::*;

verus! {

/// The state of the drag and drop highlight: what is being dragged, with its
/// bounds, and the zone it hovers over. `None` means no highlight.
#[derive(Clone, Copy, Debug)]
pub struct Highlight {
    pub dragging: Option<(TreeLocation, Rectangle)>,
    pub hovered: Option<TreeLocation>,
}

impl Default for Highlight {
    fn default() -> (info: Highlight)
        ensures
            info == dropped_state(),
    {
        Highlight { dragging: None, hovered: None }
    }
}

/// What has to happen to the highlight flags when the hovered zone goes from
/// one state to the next.
#[derive(Clone, Copy, Debug, PartialEq, Eq, Structural)]
pub enum ZoneUpdate {
    RemoveHighlight,
    Highlight,
    Replace,
    Nothing,
}

/// The state in which nothing is dragged and nothing hovered.
pub open spec fn dropped_state() -> Highlight {
    Highlight { dragging: None, hovered: None }
}

/// The zones that are items, in order.
pub open spec fn item_zones(zones: Seq<(TreeLocation, Rectangle)>) -> Seq<
    (TreeLocation, Rectangle),
>
    decreases zones.len(),
{
    if zones.len() == 0 {
        Seq::empty()
    } else if zones.last().0.is_todo() {
        item_zones(zones.drop_last()).push(zones.last())
    } else {
        item_zones(zones.drop_last())
    }
}

/// The zones that are no items, in order.
pub open spec fn other_zones(zones: Seq<(TreeLocation, Rectangle)>) -> Seq<
    (TreeLocation, Rectangle),
>
    decreases zones.len(),
{
    if zones.len() == 0 {
        Seq::empty()
    } else if zones.last().0.is_todo() {
        other_zones(zones.drop_last())
    } else {
        other_zones(zones.drop_last()).push(zones.last())
    }
}

/// The zones among which the target is chosen: the items if there is one,
/// else all the others.
pub open spec fn pool_of(zones: Seq<(TreeLocation, Rectangle)>) -> Seq<(TreeLocation, Rectangle)> {
    if item_zones(zones).len() > 0 {
        item_zones(zones)
    } else {
        other_zones(zones)
    }
}

/// Whether the zone at `k` has the largest overlap with `droppable` and is
/// the first that has it.
pub open spec fn leads(zones: Seq<(TreeLocation, Rectangle)>, droppable: Rectangle, k: int) -> bool {
    &&& 0 <= k < zones.len()
    &&& forall|m: int|
        0 <= m < zones.len() ==> (#[trigger] zones[m]).1.spec_overlap_area(droppable)
            <= zones[k].1.spec_overlap_area(droppable)
    &&& forall|m: int|
        0 <= m < k ==> (#[trigger] zones[m]).1.spec_overlap_area(droppable)
            < zones[k].1.spec_overlap_area(droppable)
}

/// The position of the first zone with the largest overlap.
pub open spec fn leader(zones: Seq<(TreeLocation, Rectangle)>, droppable: Rectangle) -> int {
    choose|k: int| leads(zones, droppable, k)
}

/// The target among the zones for something dragged with the bounds
/// `droppable`: none where there is no zone; else the item with the largest
/// overlap, or where no zone is an item, the zone with the largest overlap;
/// of several with the largest overlap, the first.
pub open spec fn resolved(zones: Seq<(TreeLocation, Rectangle)>, droppable: Rectangle) -> Option<
    TreeLocation,
> {
    if zones.len() == 0 {
        None
    } else {
        Some(pool_of(zones)[leader(pool_of(zones), droppable)].0)
    }
}

/// The state after zones were found.
pub open spec fn after_zones(info: Highlight, zones: Seq<(TreeLocation, Rectangle)>) -> Highlight {
    if zones.len() == 0 {
        Highlight { hovered: None, ..info }
    } else {
        match info.dragging {
            Some((_, bounds)) => Highlight { hovered: resolved(zones, bounds), ..info },
            None => info,
        }
    }
}

/// What has to happen to the flags when the hovered zone changes from `old`
/// to `new`.
pub open spec fn transition(old: Option<TreeLocation>, new: Option<TreeLocation>) -> ZoneUpdate {
    match (old, new) {
        (None, None) => ZoneUpdate::Nothing,
        (None, Some(_)) => ZoneUpdate::Highlight,
        (Some(_), None) => ZoneUpdate::RemoveHighlight,
        (Some(o), Some(n)) => if o == n {
            ZoneUpdate::Nothing
        } else {
            ZoneUpdate::Replace
        },
    }
}

/// The board with the flag of the hovered zone set or cleared.
pub open spec fn with_hovered(
    board: Seq<SlotView>,
    hovered: Option<TreeLocation>,
    highlight: bool,
) -> Seq<SlotView> {
    match hovered {
        Some(loc) => with_highlight(board, loc, highlight),
        None => board,
    }
}

/// The board after an update was applied to it.
pub open spec fn applied(
    update: ZoneUpdate,
    board: Seq<SlotView>,
    old: Option<TreeLocation>,
    new: Option<TreeLocation>,
) -> Seq<SlotView> {
    match update {
        ZoneUpdate::RemoveHighlight => with_hovered(board, old, false),
        ZoneUpdate::Highlight => with_hovered(board, new, true),
        ZoneUpdate::Replace => with_hovered(with_hovered(board, old, false), new, true),
        ZoneUpdate::Nothing => board,
    }
}

/// The first zone with the largest overlap is the only one that leads.
pub proof fn lemma_leader_unique(
    zones: Seq<(TreeLocation, Rectangle)>,
    droppable: Rectangle,
    k: int,
)
    requires
        leads(zones, droppable, k),
    ensures
        leader(zones, droppable) == k,
{
    let other = leader(zones, droppable);
    assert(leads(zones, droppable, other));
    if other < k {
        assert(zones[other].1.spec_overlap_area(droppable) < zones[k].1.spec_overlap_area(droppable));
        assert(zones[k].1.spec_overlap_area(droppable) <= zones[other].1.spec_overlap_area(
            droppable,
        ));
    } else if k < other {
        assert(zones[k].1.spec_overlap_area(droppable) < zones[other].1.spec_overlap_area(droppable));
        assert(zones[other].1.spec_overlap_area(droppable) <= zones[k].1.spec_overlap_area(
            droppable,
        ));
    }
}

/// Every zone is either an item or not.
pub proof fn lemma_pools_partition(zones: Seq<(TreeLocation, Rectangle)>)
    ensures
        item_zones(zones).len() + other_zones(zones).len() == zones.len(),
        forall|k: int| 0 <= k < item_zones(zones).len() ==> (#[trigger] item_zones(zones)[k]).0.is_todo(),
        forall|k: int|
            0 <= k < other_zones(zones).len() ==> !(#[trigger] other_zones(zones)[k]).0.is_todo(),
        forall|k: int|
            0 <= k < item_zones(zones).len() ==> zones.contains(#[trigger] item_zones(zones)[k]),
        forall|k: int|
            0 <= k < other_zones(zones).len() ==> zones.contains(#[trigger] other_zones(zones)[k]),
    decreases zones.len(),
{
    if zones.len() > 0 {
        lemma_pools_partition(zones.drop_last());
        let front = zones.drop_last();
        assert forall|k: int| 0 <= k < item_zones(zones).len() implies zones.contains(
            #[trigger] item_zones(zones)[k],
        ) by {
            if k < item_zones(front).len() {
                let z = item_zones(front)[k];
                assert(front.contains(z));
                let m = choose|m: int| 0 <= m < front.len() && front[m] == z;
                assert(zones[m] == z);
            } else {
                assert(zones[zones.len() - 1] == zones.last());
            }
        }
        assert forall|k: int| 0 <= k < other_zones(zones).len() implies zones.contains(
            #[trigger] other_zones(zones)[k],
        ) by {
            if k < other_zones(front).len() {
                let z = other_zones(front)[k];
                assert(front.contains(z));
                let m = choose|m: int| 0 <= m < front.len() && front[m] == z;
                assert(zones[m] == z);
            } else {
                assert(zones[zones.len() - 1] == zones.last());
            }
        }
    }
}

/// Set the droppable to be highlighted.
pub fn dragged(info: &Highlight, loc: TreeLocation, bounds: Rectangle) -> (next: Highlight)
    ensures
        next.dragging == Some((loc, bounds)),
        next.hovered == info.hovered,
{
    Highlight { dragging: Some((loc, bounds)), hovered: info.hovered }
}

/// The zone with the biggest intersection with the droppable rectangle, and
/// the area of that intersection; of several such zones the first.
pub fn biggest_intersect_area(zones: &Vec<(TreeLocation, Rectangle)>, droppable: &Rectangle) -> (best:
    Option<(TreeLocation, u64)>)
    ensures
        match best {
            Some((loc, area)) => {
                &&& zones@.len() > 0
                &&& loc == zones@[leader(zones@, *droppable)].0
                &&& area == zones@[leader(zones@, *droppable)].1.spec_overlap_area(*droppable)
                &&& leads(zones@, *droppable, leader(zones@, *droppable))
            },
            None => zones@.len() == 0,
        },
{
    if zones.len() == 0 {
        return None;
    }
    let mut k: usize = 0;
    let mut area: u64 = zones[0].1.overlap_area(droppable);
    let mut i: usize = 1;
    while i < zones.len()
        invariant
            0 <= k < i <= zones.len(),
            area == zones@[k as int].1.spec_overlap_area(*droppable),
            leads(zones@.take(i as int), *droppable, k as int),
        decreases zones.len() - i,
    {
        let next: u64 = zones[i].1.overlap_area(droppable);
        proof {
            let before = zones@.take(i as int);
            let after = zones@.take(i + 1);
            assert forall|m: int| 0 <= m < after.len() && m != i implies after[m] == before[m] by {}
        }
        if next > area {
            k = i;
            area = next;
        }
        i += 1;
        proof {
            let before = zones@.take(i - 1);
            let after = zones@.take(i as int);
            assert forall|m: int| 0 <= m < after.len() implies (#[trigger] after[m]).1.spec_overlap_area(
                *droppable,
            ) <= after[k as int].1.spec_overlap_area(*droppable) by {
                if m < i - 1 {
                    assert(after[m] == before[m]);
                }
            }
            assert forall|m: int| 0 <= m < k implies (#[trigger] after[m]).1.spec_overlap_area(
                *droppable,
            ) < after[k as int].1.spec_overlap_area(*droppable) by {
                assert(after[m] == before[m]);
            }
        }
    }
    proof {
        assert(zones@.take(i as int) =~= zones@);
        lemma_leader_unique(zones@, *droppable, k as int);
    }
    Some((zones[k].0, area))
}

/// The zone that something dragged with the bounds `droppable` would drop
/// on: an item wherever a zone is one, and of the candidates the one with
/// the largest overlap.
pub fn resolve(zones: &Vec<(TreeLocation, Rectangle)>, droppable: &Rectangle) -> (target: Option<
    TreeLocation,
>)
    ensures
        target == resolved(zones@, *droppable),
        target is None <==> zones@.len() == 0,
{
    let mut items: Vec<(TreeLocation, Rectangle)> = Vec::new();
    let mut others: Vec<(TreeLocation, Rectangle)> = Vec::new();
    let mut i: usize = 0;
    while i < zones.len()
        invariant
            i <= zones.len(),
            items@ == item_zones(zones@.take(i as int)),
            others@ == other_zones(zones@.take(i as int)),
        decreases zones.len() - i,
    {
        proof {
            assert(zones@.take(i + 1).drop_last() =~= zones@.take(i as int));
            assert(zones@.take(i + 1).last() == zones@[i as int]);
        }
        let is_task = match zones[i].0.element {
            TreeElement::Todo(_) => true,
            _ => false,
        };
        if is_task {
            items.push(zones[i]);
        } else {
            others.push(zones[i]);
        }
        i += 1;
    }
    proof {
        assert(zones@.take(i as int) =~= zones@);
        lemma_pools_partition(zones@);
    }
    let best = if items.len() == 0 {
        biggest_intersect_area(&others, droppable)
    } else {
        biggest_intersect_area(&items, droppable)
    };
    match best {
        Some((loc, _)) => Some(loc),
        None => None,
    }
}

/// Determine the zone that is hovered once zones were found. With no zone
/// nothing is hovered; else, while something is dragged, the zone it would
/// drop on is.
pub fn zones_found(info: &Highlight, zones: &Vec<(TreeLocation, Rectangle)>) -> (next: Highlight)
    ensures
        next == after_zones(*info, zones@),
{
    let mut new_info = *info;
    if zones.len() == 0 {
        new_info.hovered = None;
        return new_info;
    }
    match info.dragging {
        Some((_, bounds)) => {
            new_info.hovered = resolve(zones, &bounds);
        },
        None => (),
    }
    new_info
}

/// De-highlight everything.
pub fn dropped() -> (info: Highlight)
    ensures
        info == dropped_state(),
{
    Highlight { dragging: None, hovered: None }
}

/// Whether the flag of what is dragged has to be set on this update: a drag
/// of `loc` goes on, or a drag begins.
pub fn should_update_droppable(old_info: &Highlight, new_info: &Highlight, loc: &TreeLocation) -> (update:
    bool)
    ensures
        update == match old_info.dragging {
            Some((d_loc, _)) => d_loc == *loc,
            None => new_info.dragging is Some,
        },
{
    match &old_info.dragging {
        Some((d_id, _)) => *d_id == *loc,
        None => new_info.dragging.is_some(),
    }
}

/// What has to happen to the flags, given the hovered zone before and after.
pub fn zone_update(old_info: &Highlight, new_info: &Highlight) -> (update: ZoneUpdate)
    ensures
        update == transition(old_info.hovered, new_info.hovered),
{
    match &old_info.hovered {
        Some(o_id) => match &new_info.hovered {
            Some(n_id) => {
                if *o_id != *n_id {
                    ZoneUpdate::Replace
                } else {
                    ZoneUpdate::Nothing
                }
            },
            None => ZoneUpdate::RemoveHighlight,
        },
        None => match &new_info.hovered {
            Some(_) => ZoneUpdate::Highlight,
            None => ZoneUpdate::Nothing,
        },
    }
}

/// Sets or clears the flag of the hovered zone, if there is one and it still
/// names a part of the board.
pub fn set_hovered(tree: &mut TreeData, info: &Highlight, highlight: bool)
    ensures
        final(tree)@ == with_hovered(old(tree)@, info.hovered, highlight),
{
    match &info.hovered {
        Some(loc) => {
            tree.set_highlight(loc, highlight);
        },
        None => (),
    }
}

impl ZoneUpdate {
    /// Applies the update to the board: clears the flag of the zone hovered
    /// before, sets the flag of the zone hovered now, or both.
    pub fn update(&self, tree: &mut TreeData, old_info: &Highlight, new_info: &Highlight)
        ensures
            final(tree)@ == applied(*self, old(tree)@, old_info.hovered, new_info.hovered),
    {
        match self {
            ZoneUpdate::RemoveHighlight => set_hovered(tree, old_info, false),
            ZoneUpdate::Highlight => set_hovered(tree, new_info, true),
            ZoneUpdate::Replace => {
                set_hovered(tree, old_info, false);
                set_hovered(tree, new_info, true);
            },
            ZoneUpdate::Nothing => (),
        }
    }
}

/// Among zones that are not empty, one leads.
pub proof fn lemma_leader_exists(zones: Seq<(TreeLocation, Rectangle)>, droppable: Rectangle)
    requires
        zones.len() > 0,
    ensures
        leads(zones, droppable, leader(zones, droppable)),
    decreases zones.len(),
{
    if zones.len() == 1 {
        assert(leads(zones, droppable, 0));
    } else {
        let front = zones.drop_last();
        lemma_leader_exists(front, droppable);
        let k = leader(front, droppable);
        let last = zones.len() - 1;
        if zones[last].1.spec_overlap_area(droppable) > front[k].1.spec_overlap_area(droppable) {
            assert forall|m: int| 0 <= m < zones.len() implies (#[trigger] zones[m]).1.spec_overlap_area(
                droppable,
            ) <= zones[last].1.spec_overlap_area(droppable) by {
                if m < last {
                    assert(zones[m] == front[m]);
                }
            }
            assert forall|m: int| 0 <= m < last implies (#[trigger] zones[m]).1.spec_overlap_area(
                droppable,
            ) < zones[last].1.spec_overlap_area(droppable) by {
                assert(zones[m] == front[m]);
            }
            assert(leads(zones, droppable, last));
        } else {
            assert(zones[k] == front[k]);
            assert forall|m: int| 0 <= m < zones.len() implies (#[trigger] zones[m]).1.spec_overlap_area(
                droppable,
            ) <= zones[k].1.spec_overlap_area(droppable) by {
                if m < last {
                    assert(zones[m] == front[m]);
                }
            }
            assert forall|m: int| 0 <= m < k implies (#[trigger] zones[m]).1.spec_overlap_area(
                droppable,
            ) < zones[k].1.spec_overlap_area(droppable) by {
                assert(zones[m] == front[m]);
            }
            assert(leads(zones, droppable, k));
        }
    }
}

/// A zone that is an item is among the item zones.
pub proof fn lemma_item_zone_kept(zones: Seq<(TreeLocation, Rectangle)>, k: int)
    requires
        0 <= k < zones.len(),
        zones[k].0.is_todo(),
    ensures
        item_zones(zones).contains(zones[k]),
    decreases zones.len(),
{
    let front = zones.drop_last();
    if k == zones.len() - 1 {
        assert(item_zones(zones)[item_zones(front).len() as int] == zones[k]);
    } else {
        lemma_item_zone_kept(front, k);
        let m = choose|m: int| 0 <= m < item_zones(front).len() && item_zones(front)[m] == front[k];
        assert(item_zones(zones)[m] == zones[k]);
    }
}

/// Items take priority: where one of the zones is an item, the target is
/// an item, whatever the overlap of the other zones.
pub proof fn lemma_items_take_priority(
    zones: Seq<(TreeLocation, Rectangle)>,
    droppable: Rectangle,
    k: int,
)
    requires
        0 <= k < zones.len(),
        zones[k].0.is_todo(),
    ensures
        resolved(zones, droppable) matches Some(loc) && loc.is_todo(),
{
    lemma_item_zone_kept(zones, k);
    lemma_pools_partition(zones);
    lemma_leader_exists(item_zones(zones), droppable);
}

/// The target is exactly one of the candidate zones, and none of them
/// overlaps what is dragged more than it does.
pub proof fn lemma_target_is_largest(zones: Seq<(TreeLocation, Rectangle)>, droppable: Rectangle)
    requires
        zones.len() > 0,
    ensures
        exists|k: int|
            {
                &&& 0 <= k < pool_of(zones).len()
                &&& zones.contains(#[trigger] pool_of(zones)[k])
                &&& resolved(zones, droppable) == Some(pool_of(zones)[k].0)
                &&& forall|m: int|
                    0 <= m < pool_of(zones).len() ==> (#[trigger] pool_of(zones)[m]).1.spec_overlap_area(
                        droppable,
                    ) <= pool_of(zones)[k].1.spec_overlap_area(droppable)
            },
{
    lemma_pools_partition(zones);
    lemma_leader_exists(pool_of(zones), droppable);
    let k = leader(pool_of(zones), droppable);
    assert(zones.contains(pool_of(zones)[k]));
}

/// Finding the same zones again changes nothing: the state after the second
/// time is the state after the first.
pub proof fn lemma_zones_found_twice(info: Highlight, zones: Seq<(TreeLocation, Rectangle)>)
    ensures
        after_zones(after_zones(info, zones), zones) == after_zones(info, zones),
{
}

/// The update that a change of the hovered zone asks for leaves the flags
/// as they should be: the zone hovered before is cleared if it is no longer
/// hovered, the zone hovered now is set if it was not hovered before, and
/// no other flag changes. Where the hovered zone stays, nothing changes.
pub proof fn lemma_update_keeps_flags(
    board: Seq<SlotView>,
    old: Option<TreeLocation>,
    new: Option<TreeLocation>,
)
    ensures
        ({
            let after = applied(transition(old, new), board, old, new);
            &&& after.len() == board.len()
            &&& forall|loc: TreeLocation| resolves(after, loc) == resolves(board, loc)
            &&& old == new ==> after == board
            &&& (old is Some && old != new && resolves(board, old->0) ==> !highlight_at(after, old->0))
            &&& (new is Some && old != new && resolves(board, new->0) ==> highlight_at(after, new->0))
            &&& forall|loc: TreeLocation|
                resolves(board, loc) && Some(loc) != old && Some(loc) != new ==> highlight_at(
                    after,
                    loc,
                ) == highlight_at(board, loc)
        }),
{
    match (old, new) {
        (None, None) => {},
        (None, Some(n)) => {
            lemma_with_highlight(board, n, true);
        },
        (Some(o), None) => {
            lemma_with_highlight(board, o, false);
        },
        (Some(o), Some(n)) => {
            if o != n {
                let cleared = with_highlight(board, o, false);
                lemma_with_highlight(board, o, false);
                lemma_with_highlight(cleared, n, true);
            }
        },
    }
}

} // verus!
