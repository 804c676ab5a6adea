//! The search for drop zones: the nodes of a widget tree whose on-screen
//! bounds pass a filter.
use crate::geometry::{shift_fits, sum_fits, Point, Rectangle, Vector};
use crate::identity::{clone_id, contains_id};
use iced::advanced::widget::Id;
use vstd::prelude::*;

verus! {

/// One node of a widget tree: its identity, if it has one, the bounds its
/// layout gave it, the translation of its content if it scrolls, and its
/// children in layout order.
pub struct Node {
    pub id: Option<Id>,
    pub bounds: Rectangle,
    pub scroll: Option<Vector>,
    pub children: Vec<Node>,
}

/// What a search asks for: which on-screen bounds pass, which identities are
/// eligible (all of them where `allow` is absent), and after how many zones
/// on one branch the search stops descending (never where `max_depth` is
/// absent).
pub struct Query {
    pub accepts: spec_fn(Rectangle) -> bool,
    pub allow: Option<Set<Id>>,
    pub max_depth: Option<nat>,
}

/// A test on the on-screen bounds of a node. `test` computes what `accepts`
/// states.
pub trait ZoneFilter {
    /// Whether bounds pass the filter.
    spec fn accepts(&self, bounds: Rectangle) -> bool;

    /// Tests whether bounds pass the filter.
    fn test(&self, bounds: &Rectangle) -> (pass: bool)
        ensures
            pass == self.accepts(*bounds),
    ;
}

/// Passes the bounds that contain a point.
#[derive(Clone, Copy, Debug)]
pub struct ContainsPoint {
    pub point: Point,
}

/// Passes the bounds that share a cell with a rectangle.
#[derive(Clone, Copy, Debug)]
pub struct Intersects {
    pub bounds: Rectangle,
}

/// Passes all bounds.
#[derive(Clone, Copy, Debug)]
pub struct Everywhere;

impl ZoneFilter for ContainsPoint {
    open spec fn accepts(&self, bounds: Rectangle) -> bool {
        bounds.spec_contains(self.point)
    }

    fn test(&self, bounds: &Rectangle) -> (pass: bool) {
        bounds.contains(self.point)
    }
}

impl ZoneFilter for Intersects {
    open spec fn accepts(&self, bounds: Rectangle) -> bool {
        bounds.spec_intersects(self.bounds)
    }

    fn test(&self, bounds: &Rectangle) -> (pass: bool) {
        bounds.intersects(&self.bounds)
    }
}

impl ZoneFilter for Everywhere {
    open spec fn accepts(&self, bounds: Rectangle) -> bool {
        true
    }

    fn test(&self, bounds: &Rectangle) -> (pass: bool) {
        true
    }
}

/// The predicate that a filter computes.
pub open spec fn filter_of<F: ZoneFilter>(filter: F) -> spec_fn(Rectangle) -> bool {
    |bounds: Rectangle| filter.accepts(bounds)
}

/// The identity behind an optional reference.
pub open spec fn owned(id: Option<&Id>) -> Option<Id> {
    match id {
        Some(i) => Some(*i),
        None => None,
    }
}

/// The eligible identities as a set.
pub open spec fn allow_of(options: Option<Vec<Id>>) -> Option<Set<Id>> {
    match options {
        Some(ids) => Some(ids@.to_set()),
        None => None,
    }
}

/// The depth limit as a natural number.
pub open spec fn limit_of(depth: Option<usize>) -> Option<nat> {
    match depth {
        Some(k) => Some(k as nat),
        None => None,
    }
}

/// What a search with this filter, these eligible identities and this depth
/// limit asks for.
pub open spec fn query_of<F: ZoneFilter>(
    filter: F,
    options: Option<Vec<Id>>,
    depth: Option<usize>,
) -> Query {
    Query { accepts: filter_of(filter), allow: allow_of(options), max_depth: limit_of(depth) }
}

impl Query {
    /// Whether a node with this identity and these on-screen bounds is a zone.
    pub open spec fn qualifies(self, id: Option<Id>, on_screen: Rectangle) -> bool {
        &&& id matches Some(i)
        &&& (self.allow matches Some(ids) ==> ids.contains(i))
        &&& (self.accepts)(on_screen)
    }

    /// Whether the search goes on below a node once `depth` zones have been
    /// recorded on the branch down to it, the node included.
    pub open spec fn descends(self, depth: nat) -> bool {
        self.max_depth matches Some(k) ==> depth < k
    }
}

impl Node {
    /// The bounds of the node on screen, under the accumulated translation
    /// `offset` of the scrolling containers around it.
    pub open spec fn on_screen(self, offset: Vector) -> Rectangle {
        self.bounds.spec_minus(offset)
    }

    /// Whether the search records this node.
    pub open spec fn is_zone(self, query: Query, offset: Vector) -> bool {
        query.qualifies(self.id, self.on_screen(offset))
    }

    /// The zone that the search records for this node, if it records one.
    pub open spec fn own_zone(self, query: Query, offset: Vector) -> Seq<(Id, Rectangle)> {
        if self.is_zone(query, offset) {
            seq![(self.id->0, self.on_screen(offset))]
        } else {
            Seq::empty()
        }
    }

    /// The number of zones on the branch down to this node, the node included.
    pub open spec fn depth_below(self, query: Query, depth: nat, offset: Vector) -> nat {
        if self.is_zone(query, offset) {
            depth + 1
        } else {
            depth
        }
    }

    /// The accumulated translation that applies to the children of this node.
    pub open spec fn offset_below(self, offset: Vector) -> Vector {
        match self.scroll {
            Some(translation) => offset.spec_plus(translation),
            None => offset,
        }
    }

    /// Whether the on-screen bounds of this node and of every node below it,
    /// and every accumulated translation on the way, stay within the
    /// coordinate range.
    pub open spec fn in_space(self, offset: Vector) -> bool
        decreases self,
    {
        &&& shift_fits(self.bounds.x as int, self.bounds.y as int, offset.x as int, offset.y as int)
        &&& (self.scroll matches Some(translation) ==> sum_fits(offset, translation))
        &&& forall|i: int|
            0 <= i < self.children.len() ==> (#[trigger] self.children[i]).in_space(
                self.offset_below(offset),
            )
    }

    /// The zones that a depth-first search finds at this node and below it,
    /// in pre-order. `depth` zones have been recorded on the branch above the
    /// node, and `offset` is the accumulated translation of the scrolling
    /// containers around it.
    pub open spec fn zones(self, query: Query, depth: nat, offset: Vector) -> Seq<(Id, Rectangle)>
        decreases self, self.children.len() + 1,
    {
        if query.descends(self.depth_below(query, depth, offset)) {
            self.own_zone(query, offset) + self.zones_in_children(
                self.children.len() as nat,
                query,
                depth,
                offset,
            )
        } else {
            self.own_zone(query, offset)
        }
    }

    /// The zones found below the first `count` children of this node, one
    /// child after the other.
    pub open spec fn zones_in_children(
        self,
        count: nat,
        query: Query,
        depth: nat,
        offset: Vector,
    ) -> Seq<(Id, Rectangle)>
        decreases self, count,
    {
        if count == 0 || count > self.children.len() {
            Seq::empty()
        } else {
            self.zones_in_children((count - 1) as nat, query, depth, offset)
                + self.children[count - 1].zones(
                query,
                self.depth_below(query, depth, offset),
                self.offset_below(offset),
            )
        }
    }
}

/// The state of a search in progress. The widget tree drives it: it announces
/// a scrolling container with `scrollable`, enters each container with
/// `container`, visits the children if the answer says so, and closes the
/// visit with `leave`.
pub struct FindDropZone<F> {
    pub filter: F,
    pub options: Option<Vec<Id>>,
    pub zones: Vec<(Id, Rectangle)>,
    pub max_depth: Option<usize>,
    pub c_depth: usize,
    pub offset: Vector,
    pub pending: Option<Vector>,
}

/// The answer of `container`: whether to visit the children, and the depth
/// and translation that hold again once the visit is over.
#[derive(Clone, Copy, Debug)]
pub struct Frame {
    pub descend: bool,
    pub depth: usize,
    pub offset: Vector,
}

impl<F: ZoneFilter> FindDropZone<F> {
    /// What this search asks for.
    pub open spec fn query(&self) -> Query {
        query_of(self.filter, self.options, self.max_depth)
    }

    /// The depth never exceeds the number of zones recorded.
    pub open spec fn wf(&self) -> bool {
        self.c_depth <= self.zones.len()
    }

    /// Whether two states belong to one search: same filter, same eligible
    /// identities, same depth limit.
    pub open spec fn same_search(&self, other: &Self) -> bool {
        &&& self.filter == other.filter
        &&& self.options == other.options
        &&& self.max_depth == other.max_depth
    }

    /// Whether the search can enter a container with these bounds without
    /// leaving the coordinate range.
    pub open spec fn can_enter(&self, bounds: Rectangle) -> bool {
        &&& shift_fits(
            bounds.x as int,
            bounds.y as int,
            self.offset.x as int,
            self.offset.y as int,
        )
        &&& (self.pending matches Some(translation) ==> sum_fits(self.offset, translation))
    }

    /// Whether `container` records a zone for a container with this identity
    /// and these bounds.
    pub open spec fn records(&self, id: Option<Id>, bounds: Rectangle) -> bool {
        self.query().qualifies(id, bounds.spec_minus(self.offset))
    }

    /// The translation that applies below the container entered next.
    pub open spec fn offset_inside(&self) -> Vector {
        match self.pending {
            Some(translation) => self.offset.spec_plus(translation),
            None => self.offset,
        }
    }

    /// Announces that the container entered next scrolls its content by
    /// `translation`.
    pub fn scrollable(&mut self, translation: Vector)
        requires
            old(self).wf(),
        ensures
            final(self).wf(),
            final(self).same_search(old(self)),
            final(self).pending == Some(translation),
            final(self).zones == old(self).zones,
            final(self).c_depth == old(self).c_depth,
            final(self).offset == old(self).offset,
    {
        self.pending = Some(translation);
    }

    /// Tests `can_enter`.
    pub fn check_enter(&self, bounds: &Rectangle) -> (ok: bool)
        ensures
            ok == self.can_enter(*bounds),
    {
        let moves = match &self.pending {
            Some(translation) => self.offset.can_plus(translation),
            None => true,
        };
        moves && bounds.can_minus(&self.offset)
    }

    /// Enters a container. Its bounds are corrected by the translation
    /// accumulated so far; if it has an identity, the identity is eligible and
    /// the corrected bounds pass the filter, the zone is recorded and the
    /// depth grows by one. The translation announced for this container
    /// applies from here on, until `leave`.
    pub fn container(&mut self, id: Option<&Id>, bounds: Rectangle) -> (frame: Frame)
        requires
            old(self).wf(),
            old(self).can_enter(bounds),
        ensures
            final(self).wf(),
            final(self).same_search(old(self)),
            frame.depth == old(self).c_depth,
            frame.offset == old(self).offset,
            old(self).records(owned(id), bounds) ==> final(self).zones@ == old(self).zones@.push(
                (owned(id)->0, bounds.spec_minus(old(self).offset)),
            ) && final(self).c_depth == old(self).c_depth + 1,
            !old(self).records(owned(id), bounds) ==> final(self).zones@ == old(self).zones@
                && final(self).c_depth == old(self).c_depth,
            final(self).offset == old(self).offset_inside(),
            final(self).pending is None,
            frame.descend == old(self).query().descends(final(self).c_depth as nat),
    {
        let frame_depth: usize = self.c_depth;
        let frame_offset: Vector = self.offset;
        let on_screen = bounds.minus(&self.offset);
        match id {
            Some(id) => {
                let is_option = match &self.options {
                    Some(options) => contains_id(options, id),
                    None => true,
                };
                if is_option && self.filter.test(&on_screen) {
                    self.zones.push((clone_id(id), on_screen));
                    assert(self.c_depth < self.zones.len() <= usize::MAX);
                    self.c_depth += 1;
                }
            },
            None => (),
        }
        match self.pending {
            Some(translation) => {
                self.offset = self.offset.plus(&translation);
            },
            None => (),
        }
        self.pending = None;
        let goto_next = match &self.max_depth {
            Some(m_depth) => self.c_depth < *m_depth,
            None => true,
        };
        Frame { descend: goto_next, depth: frame_depth, offset: frame_offset }
    }

    /// Enters a container if its bounds stay within the coordinate range, as
    /// `container` does. A container whose bounds leave the range is passed
    /// by: it is no zone, the answer is `None`, and the caller visits none of
    /// its children. The translation announced for it is dropped.
    pub fn enter(&mut self, id: Option<&Id>, bounds: Rectangle) -> (frame: Option<Frame>)
        requires
            old(self).wf(),
        ensures
            final(self).wf(),
            final(self).same_search(old(self)),
            final(self).pending is None,
            frame is Some <==> old(self).can_enter(bounds),
            frame matches Some(f) ==> {
                &&& f.depth == old(self).c_depth
                &&& f.offset == old(self).offset
                &&& old(self).records(owned(id), bounds) ==> final(self).zones@ == old(
                    self,
                ).zones@.push((owned(id)->0, bounds.spec_minus(old(self).offset)))
                    && final(self).c_depth == old(self).c_depth + 1
                &&& !old(self).records(owned(id), bounds) ==> final(self).zones@ == old(
                    self,
                ).zones@ && final(self).c_depth == old(self).c_depth
                &&& final(self).offset == old(self).offset_inside()
                &&& f.descend == old(self).query().descends(final(self).c_depth as nat)
            },
            frame is None ==> {
                &&& final(self).zones == old(self).zones
                &&& final(self).c_depth == old(self).c_depth
                &&& final(self).offset == old(self).offset
            },
    {
        if self.check_enter(&bounds) {
            Some(self.container(id, bounds))
        } else {
            self.pending = None;
            None
        }
    }

    /// Closes the visit that `container` opened with `frame`: depth and
    /// translation are again what they were for the container's siblings.
    pub fn leave(&mut self, frame: Frame)
        requires
            old(self).wf(),
            frame.depth <= old(self).c_depth,
        ensures
            final(self).wf(),
            final(self).same_search(old(self)),
            final(self).zones == old(self).zones,
            final(self).c_depth == frame.depth,
            final(self).offset == frame.offset,
            final(self).pending is None,
    {
        self.c_depth = frame.depth;
        self.offset = frame.offset;
        self.pending = None;
    }

    /// The zones recorded so far, in the order in which they were found.
    pub fn finish(&self) -> (zones: Vec<(Id, Rectangle)>)
        ensures
            zones@ == self.zones@,
    {
        let mut zones: Vec<(Id, Rectangle)> = Vec::new();
        let mut i: usize = 0;
        while i < self.zones.len()
            invariant
                i <= self.zones.len(),
                zones@ == self.zones@.subrange(0, i as int),
            decreases self.zones.len() - i,
        {
            zones.push((clone_id(&self.zones[i].0), self.zones[i].1));
            i += 1;
        }
        zones
    }
}

/// Starts a search for the zones whose on-screen bounds pass `filter`. Only
/// the identities in `options` are eligible, all of them where it is `None`.
/// Once `depth` zones are recorded on a branch the search does not go deeper
/// there; where it is `None` the whole tree is searched.
pub fn find_zones<F: ZoneFilter>(
    filter: F,
    options: Option<Vec<Id>>,
    depth: Option<usize>,
) -> (search: FindDropZone<F>)
    ensures
        search.wf(),
        search.filter == filter,
        search.options == options,
        search.max_depth == depth,
        search.zones@ == Seq::<(Id, Rectangle)>::empty(),
        search.c_depth == 0,
        search.offset == Vector::spec_zero(),
        search.pending is None,
{
    FindDropZone {
        filter,
        options,
        zones: Vec::new(),
        max_depth: depth,
        c_depth: 0,
        offset: Vector::zero(),
        pending: None,
    }
}

/// Tests whether the on-screen bounds of `node` and of every node below it
/// stay within the coordinate range, under the accumulated translation
/// `offset`.
pub fn check_in_space(node: &Node, offset: &Vector) -> (ok: bool)
    ensures
        ok == node.in_space(*offset),
    decreases node,
{
    if !node.bounds.can_minus(offset) {
        return false;
    }
    let below: Vector = match &node.scroll {
        Some(translation) => {
            if !offset.can_plus(translation) {
                return false;
            }
            offset.plus(translation)
        },
        None => *offset,
    };
    let mut i: usize = 0;
    while i < node.children.len()
        invariant
            i <= node.children.len(),
            below == node.offset_below(*offset),
            forall|k: int| 0 <= k < i ==> (#[trigger] node.children[k]).in_space(below),
        decreases node.children.len() - i,
    {
        if !check_in_space(&node.children[i], &below) {
            return false;
        }
        i += 1;
    }
    true
}

/// Searches `node` and the nodes below it, depth first, and appends the
/// zones found to those of `search`. Depth and translation of `search` are
/// afterwards what they were before.
pub fn visit<F: ZoneFilter>(search: &mut FindDropZone<F>, node: &Node)
    requires
        old(search).wf(),
        old(search).pending is None,
        node.in_space(old(search).offset),
    ensures
        final(search).wf(),
        final(search).same_search(old(search)),
        final(search).pending is None,
        final(search).c_depth == old(search).c_depth,
        final(search).offset == old(search).offset,
        final(search).zones@ == old(search).zones@ + node.zones(
            old(search).query(),
            old(search).c_depth as nat,
            old(search).offset,
        ),
    decreases node,
{
    let ghost start = *search;
    let ghost query = search.query();
    let ghost depth = search.c_depth as nat;
    let ghost offset = search.offset;
    let ghost before = search.zones@;
    match node.scroll {
        Some(translation) => {
            search.scrollable(translation);
        },
        None => (),
    }
    let frame = match &node.id {
        Some(id) => search.container(Some(id), node.bounds),
        None => search.container(None, node.bounds),
    };
    assert(search.zones@ == before + node.own_zone(query, offset));
    if frame.descend {
        let mut i: usize = 0;
        while i < node.children.len()
            invariant
                i <= node.children.len(),
                search.wf(),
                search.same_search(&start),
                search.query() == query,
                search.pending is None,
                search.c_depth == node.depth_below(query, depth, offset),
                search.offset == node.offset_below(offset),
                frame.depth <= search.c_depth,
                node.in_space(offset),
                search.zones@ == before + node.own_zone(query, offset) + node.zones_in_children(
                    i as nat,
                    query,
                    depth,
                    offset,
                ),
            decreases node.children.len() - i,
        {
            visit(search, &node.children[i]);
            i += 1;
        }
    }
    search.leave(frame);
}

} // verus!
