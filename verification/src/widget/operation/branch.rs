//! Branches of a widget tree, and what the search for drop zones finds
//! along them.
use crate::geometry::{Rectangle, Vector};
use crate::widget::operation::drop::{Node, Query};
use iced::advanced::widget::Id;
use vstd::prelude::*;

verus! {

impl Node {
    /// Whether `path` leads from this node to a node of the tree. A path
    /// names, step by step, the position of the child to go to.
    pub open spec fn has(self, path: Seq<int>) -> bool
        decreases path.len(),
    {
        path.len() == 0 || (0 <= path[0] < self.children.len() && self.children[path[0]].has(
            path.drop_first(),
        ))
    }

    /// The node that `path` leads to.
    pub open spec fn at(self, path: Seq<int>) -> Node
        decreases path.len(),
    {
        if path.len() == 0 || !(0 <= path[0] < self.children.len()) {
            self
        } else {
            self.children[path[0]].at(path.drop_first())
        }
    }

    /// The accumulated translation under which the node at the end of
    /// `path` is seen, where this node is seen under `offset`.
    pub open spec fn offset_at(self, path: Seq<int>, offset: Vector) -> Vector
        decreases path.len(),
    {
        if path.len() == 0 || !(0 <= path[0] < self.children.len()) {
            offset
        } else {
            self.children[path[0]].offset_at(path.drop_first(), self.offset_below(offset))
        }
    }

    /// The sum of the horizontal translations of the scrolling nodes on
    /// `path`, from this node down to the parent of the node at its end.
    pub open spec fn scrolled_x(self, path: Seq<int>) -> int
        decreases path.len(),
    {
        if path.len() == 0 || !(0 <= path[0] < self.children.len()) {
            0
        } else {
            (match self.scroll {
                Some(translation) => translation.x as int,
                None => 0,
            }) + self.children[path[0]].scrolled_x(path.drop_first())
        }
    }

    /// The sum of the vertical translations of the scrolling nodes on `path`,
    /// from this node down to the parent of the node at its end.
    pub open spec fn scrolled_y(self, path: Seq<int>) -> int
        decreases path.len(),
    {
        if path.len() == 0 || !(0 <= path[0] < self.children.len()) {
            0
        } else {
            (match self.scroll {
                Some(translation) => translation.y as int,
                None => 0,
            }) + self.children[path[0]].scrolled_y(path.drop_first())
        }
    }

    /// The zones that the search records at the nodes on `path`, from this
    /// node on and as far as it follows the path: it stops where the depth
    /// limit stops it. `depth` zones have been recorded above this node.
    pub open spec fn zones_along(
        self,
        path: Seq<int>,
        query: Query,
        depth: nat,
        offset: Vector,
    ) -> Seq<(Id, Rectangle)>
        decreases path.len(),
    {
        let below = self.depth_below(query, depth, offset);
        if path.len() == 0 || !(0 <= path[0] < self.children.len()) || !query.descends(below) {
            self.own_zone(query, offset)
        } else {
            self.own_zone(query, offset) + self.children[path[0]].zones_along(
                path.drop_first(),
                query,
                below,
                self.offset_below(offset),
            )
        }
    }

    /// The number of zones that the search records on `path`.
    pub open spec fn recorded_along(
        self,
        path: Seq<int>,
        query: Query,
        depth: nat,
        offset: Vector,
    ) -> nat {
        self.zones_along(path, query, depth, offset).len()
    }

    /// The paths to the nodes that the search records at this node and below
    /// it, in the order in which it records them.
    pub open spec fn zone_paths(self, query: Query, depth: nat, offset: Vector) -> Seq<Seq<int>>
        decreases self, self.children.len() + 1,
    {
        let own = if self.is_zone(query, offset) {
            seq![Seq::<int>::empty()]
        } else {
            Seq::<Seq<int>>::empty()
        };
        if query.descends(self.depth_below(query, depth, offset)) {
            own + self.zone_paths_in_children(self.children.len() as nat, query, depth, offset)
        } else {
            own
        }
    }

    /// The paths to the nodes that the search records below the first
    /// `count` children of this node.
    pub open spec fn zone_paths_in_children(
        self,
        count: nat,
        query: Query,
        depth: nat,
        offset: Vector,
    ) -> Seq<Seq<int>>
        decreases self, count,
    {
        if count == 0 || count > self.children.len() {
            Seq::empty()
        } else {
            self.zone_paths_in_children((count - 1) as nat, query, depth, offset)
                + self.children[count - 1].zone_paths(
                query,
                self.depth_below(query, depth, offset),
                self.offset_below(offset),
            ).map_values(|path: Seq<int>| seq![count - 1] + path)
        }
    }

    /// The zone that the search reports for the node at the end of `path`.
    pub open spec fn zone_at(self, path: Seq<int>, offset: Vector) -> (Id, Rectangle) {
        (self.at(path).id->0, self.at(path).on_screen(self.offset_at(path, offset)))
    }
}

/// The zones found below the first `count` children hold those found below
/// each of them.
proof fn lemma_child_zones_kept(
    node: Node,
    count: nat,
    i: int,
    query: Query,
    depth: nat,
    offset: Vector,
    zone: (Id, Rectangle),
)
    requires
        0 <= i < count <= node.children.len(),
        node.children[i].zones(
            query,
            node.depth_below(query, depth, offset),
            node.offset_below(offset),
        ).contains(zone),
    ensures
        node.zones_in_children(count, query, depth, offset).contains(zone),
    decreases count,
{
    let earlier = node.zones_in_children((count - 1) as nat, query, depth, offset);
    let last = node.children[count - 1].zones(
        query,
        node.depth_below(query, depth, offset),
        node.offset_below(offset),
    );
    if i == count - 1 {
        let k = choose|k: int| 0 <= k < last.len() && last[k] == zone;
        assert((earlier + last)[earlier.len() + k] == zone);
    } else {
        lemma_child_zones_kept(node, (count - 1) as nat, i, query, depth, offset, zone);
        let k = choose|k: int| 0 <= k < earlier.len() && earlier[k] == zone;
        assert((earlier + last)[k] == zone);
    }
}

/// A search without a depth limit reports every node that has an identity,
/// is eligible and whose on-screen bounds pass the filter.
pub proof fn lemma_every_zone_found(
    root: Node,
    path: Seq<int>,
    query: Query,
    depth: nat,
    offset: Vector,
)
    requires
        query.max_depth is None,
        root.has(path),
        root.at(path).is_zone(query, root.offset_at(path, offset)),
    ensures
        root.zones(query, depth, offset).contains(root.zone_at(path, offset)),
    decreases path.len(),
{
    let own = root.own_zone(query, offset);
    let rest = root.zones_in_children(root.children.len() as nat, query, depth, offset);
    if path.len() == 0 {
        assert((own + rest)[0] == root.zone_at(path, offset));
    } else {
        let child = root.children[path[0]];
        lemma_every_zone_found(
            child,
            path.drop_first(),
            query,
            root.depth_below(query, depth, offset),
            root.offset_below(offset),
        );
        lemma_child_zones_kept(
            root,
            root.children.len() as nat,
            path[0],
            query,
            depth,
            offset,
            root.zone_at(path, offset),
        );
        let k = choose|k: int| 0 <= k < rest.len() && rest[k] == root.zone_at(path, offset);
        assert((own + rest)[own.len() + k] == root.zone_at(path, offset));
    }
}

/// A zone found below the first `count` children of a node is the zone of a
/// node that a path leads to.
proof fn lemma_child_zone_has_path(
    node: Node,
    count: nat,
    query: Query,
    depth: nat,
    offset: Vector,
    zone: (Id, Rectangle),
) -> (path: Seq<int>)
    requires
        count <= node.children.len(),
        node.zones_in_children(count, query, depth, offset).contains(zone),
    ensures
        path.len() > 0,
        0 <= path[0] < count,
        node.has(path),
        node.at(path).is_zone(query, node.offset_at(path, offset)),
        node.zone_at(path, offset) == zone,
        node.children[path[0]].zones_along(
            path.drop_first(),
            query,
            node.depth_below(query, depth, offset),
            node.offset_below(offset),
        ).contains(zone),
    decreases node, count,
{
    let earlier = node.zones_in_children((count - 1) as nat, query, depth, offset);
    let last = node.children[count - 1].zones(
        query,
        node.depth_below(query, depth, offset),
        node.offset_below(offset),
    );
    if count == 0 {
        Seq::empty()
    } else if earlier.contains(zone) {
        lemma_child_zone_has_path(node, (count - 1) as nat, query, depth, offset, zone)
    } else {
        let k = choose|k: int| 0 <= k < (earlier + last).len() && (earlier + last)[k] == zone;
        assert(last[k - earlier.len()] == zone);
        let tail = lemma_zone_has_path(
            node.children[count - 1],
            query,
            node.depth_below(query, depth, offset),
            node.offset_below(offset),
            zone,
        );
        let path = seq![count - 1] + tail;
        assert(path.drop_first() =~= tail);
        path
    }
}

/// Every zone that a search reports is the zone of a node of the tree that
/// has an identity, is eligible and whose on-screen bounds pass the filter.
/// The result is a path to such a node.
pub proof fn lemma_zone_has_path(
    root: Node,
    query: Query,
    depth: nat,
    offset: Vector,
    zone: (Id, Rectangle),
) -> (path: Seq<int>)
    requires
        root.zones(query, depth, offset).contains(zone),
    ensures
        root.has(path),
        root.at(path).is_zone(query, root.offset_at(path, offset)),
        root.zone_at(path, offset) == zone,
        root.zones_along(path, query, depth, offset).contains(zone),
    decreases root, root.children.len() + 1,
{
    let own = root.own_zone(query, offset);
    if own.contains(zone) {
        Seq::empty()
    } else {
        let rest = root.zones_in_children(root.children.len() as nat, query, depth, offset);
        let all = root.zones(query, depth, offset);
        let k = choose|k: int| 0 <= k < all.len() && all[k] == zone;
        if k < own.len() {
            assert(own[k] == zone);
        }
        assert(rest[k - own.len()] == zone);
        let path = lemma_child_zone_has_path(
            root,
            root.children.len() as nat,
            query,
            depth,
            offset,
            zone,
        );
        let tail = root.children[path[0]].zones_along(
            path.drop_first(),
            query,
            root.depth_below(query, depth, offset),
            root.offset_below(offset),
        );
        let i = choose|i: int| 0 <= i < tail.len() && tail[i] == zone;
        assert((own + tail)[own.len() + i] == zone);
        path
    }
}

/// A complete search finds exactly the nodes that have an identity and
/// whose on-screen bounds pass the filter: with no list of eligible
/// identities and no depth limit, a zone is found if and only if it is
/// the zone of such a node.
pub proof fn lemma_complete_search(root: Node, query: Query, zone: (Id, Rectangle))
    requires
        query.allow is None,
        query.max_depth is None,
    ensures
        root.zones(query, 0, Vector::spec_zero()).contains(zone) <==> exists|path: Seq<int>|
            {
                &&& #[trigger] root.has(path)
                &&& root.at(path).id is Some
                &&& (query.accepts)(root.at(path).on_screen(root.offset_at(path, Vector::spec_zero())))
                &&& root.zone_at(path, Vector::spec_zero()) == zone
            },
{
    let zero = Vector::spec_zero();
    if root.zones(query, 0, zero).contains(zone) {
        let path = lemma_zone_has_path(root, query, 0, zero, zone);
        assert(root.has(path));
    }
    if exists|path: Seq<int>|
        {
            &&& #[trigger] root.has(path)
            &&& root.at(path).id is Some
            &&& (query.accepts)(root.at(path).on_screen(root.offset_at(path, zero)))
            &&& root.zone_at(path, zero) == zone
        } {
        let path = choose|path: Seq<int>|
            {
                &&& #[trigger] root.has(path)
                &&& root.at(path).id is Some
                &&& (query.accepts)(root.at(path).on_screen(root.offset_at(path, zero)))
                &&& root.zone_at(path, zero) == zone
            };
        lemma_every_zone_found(root, path, query, 0, zero);
    }
}

/// The zones recorded on a branch are zones that the search returns.
pub proof fn lemma_branch_zones_found(
    node: Node,
    path: Seq<int>,
    query: Query,
    depth: nat,
    offset: Vector,
    zone: (Id, Rectangle),
)
    requires
        node.zones_along(path, query, depth, offset).contains(zone),
    ensures
        node.zones(query, depth, offset).contains(zone),
    decreases path.len(),
{
    let own = node.own_zone(query, offset);
    let below = node.depth_below(query, depth, offset);
    let along = node.zones_along(path, query, depth, offset);
    let k = choose|k: int| 0 <= k < along.len() && along[k] == zone;
    if path.len() == 0 || !(0 <= path[0] < node.children.len()) || !query.descends(below) {
        assert(node.zones(query, depth, offset)[k] == zone);
    } else {
        let rest = node.zones_in_children(node.children.len() as nat, query, depth, offset);
        if k < own.len() {
            assert((own + rest)[k] == zone);
        } else {
            let tail = node.children[path[0]].zones_along(
                path.drop_first(),
                query,
                below,
                node.offset_below(offset),
            );
            assert(tail[k - own.len()] == zone);
            lemma_branch_zones_found(
                node.children[path[0]],
                path.drop_first(),
                query,
                below,
                node.offset_below(offset),
                zone,
            );
            lemma_child_zones_kept(
                node,
                node.children.len() as nat,
                path[0],
                query,
                depth,
                offset,
                zone,
            );
            let m = choose|m: int| 0 <= m < rest.len() && rest[m] == zone;
            assert((own + rest)[own.len() + m] == zone);
        }
    }
}

/// The zones that a search returns are those that it records on the
/// branches of the tree: a zone is returned if and only if it is recorded
/// on some path.
pub proof fn lemma_zones_lie_on_branches(root: Node, query: Query, zone: (Id, Rectangle))
    ensures
        root.zones(query, 0, Vector::spec_zero()).contains(zone) <==> exists|path: Seq<int>|
            #[trigger] root.zones_along(path, query, 0, Vector::spec_zero()).contains(zone),
{
    let zero = Vector::spec_zero();
    if root.zones(query, 0, zero).contains(zone) {
        let path = lemma_zone_has_path(root, query, 0, zero, zone);
        assert(root.zones_along(path, query, 0, zero).contains(zone));
    }
    if exists|path: Seq<int>| #[trigger] root.zones_along(path, query, 0, zero).contains(zone) {
        let path = choose|path: Seq<int>|
            #[trigger] root.zones_along(path, query, 0, zero).contains(zone);
        lemma_branch_zones_found(root, path, query, 0, zero, zone);
    }
}

/// With a depth limit the search records at most that many zones on any
/// branch of the tree; with the limit zero it still records the root, if the
/// root is a zone, and nothing below it.
pub proof fn lemma_depth_bound(root: Node, path: Seq<int>, query: Query, limit: nat)
    requires
        query.max_depth == Some(limit),
    ensures
        limit >= 1 ==> root.recorded_along(path, query, 0, Vector::spec_zero()) <= limit,
        limit == 0 ==> root.zones_along(path, query, 0, Vector::spec_zero()) == root.own_zone(
            query,
            Vector::spec_zero(),
        ),
        limit == 0 ==> root.recorded_along(path, query, 0, Vector::spec_zero()) <= 1,
{
    if limit >= 1 {
        lemma_depth_bound_from(root, path, query, limit, 0, Vector::spec_zero());
    }
}

/// Below a node that the search reaches with fewer zones recorded than the
/// limit allows, the zones on a branch never exceed the limit.
pub proof fn lemma_depth_bound_from(
    node: Node,
    path: Seq<int>,
    query: Query,
    limit: nat,
    depth: nat,
    offset: Vector,
)
    requires
        query.max_depth == Some(limit),
        depth < limit,
    ensures
        depth + node.recorded_along(path, query, depth, offset) <= limit,
    decreases path.len(),
{
    let below = node.depth_below(query, depth, offset);
    if path.len() == 0 || !(0 <= path[0] < node.children.len()) || !query.descends(below) {
    } else {
        lemma_depth_bound_from(
            node.children[path[0]],
            path.drop_first(),
            query,
            limit,
            below,
            node.offset_below(offset),
        );
    }
}

/// A node that is no zone does not stop the search: while the limit is not
/// reached, the zones found at the node are those found below its children.
pub proof fn lemma_search_passes_non_zone(node: Node, query: Query, depth: nat, offset: Vector)
    requires
        !node.is_zone(query, offset),
        query.descends(depth),
    ensures
        node.zones(query, depth, offset) == node.zones_in_children(
            node.children.len() as nat,
            query,
            depth,
            offset,
        ),
{
}

/// The translation under which a node is seen is the sum of the
/// translations of the scrolling nodes above it, and its on-screen bounds
/// are its layout bounds moved back by that sum.
pub proof fn lemma_scroll_correction(root: Node, path: Seq<int>, offset: Vector)
    requires
        root.in_space(offset),
        root.has(path),
    ensures
        root.offset_at(path, offset).x == offset.x + root.scrolled_x(path),
        root.offset_at(path, offset).y == offset.y + root.scrolled_y(path),
        root.at(path).on_screen(root.offset_at(path, offset)).x == root.at(path).bounds.x
            - offset.x - root.scrolled_x(path),
        root.at(path).on_screen(root.offset_at(path, offset)).y == root.at(path).bounds.y
            - offset.y - root.scrolled_y(path),
        root.at(path).on_screen(root.offset_at(path, offset)).width == root.at(path).bounds.width,
        root.at(path).on_screen(root.offset_at(path, offset)).height == root.at(
            path,
        ).bounds.height,
        root.at(path).in_space(root.offset_at(path, offset)),
    decreases path.len(),
{
    if path.len() > 0 {
        lemma_scroll_correction(root.children[path[0]], path.drop_first(), root.offset_below(offset));
    }
}

/// Below the first `count` children, each zone found belongs to the node
/// at the end of the path recorded for it, and no two of these paths are
/// the same.
proof fn lemma_child_zone_paths(node: Node, count: nat, query: Query, depth: nat, offset: Vector)
    requires
        count <= node.children.len(),
    ensures
        ({
            let paths = node.zone_paths_in_children(count, query, depth, offset);
            let zones = node.zones_in_children(count, query, depth, offset);
            &&& paths.len() == zones.len()
            &&& forall|k: int|
                0 <= k < paths.len() ==> {
                    &&& (#[trigger] paths[k]).len() > 0
                    &&& 0 <= paths[k][0] < count
                    &&& node.has(paths[k])
                    &&& zones[k] == node.zone_at(paths[k], offset)
                }
            &&& forall|i: int, j: int|
                0 <= i < j < paths.len() ==> #[trigger] paths[i] != #[trigger] paths[j]
        }),
    decreases node, count,
{
    if count > 0 {
        let last = count - 1;
        let child = node.children[last];
        let below = node.depth_below(query, depth, offset);
        let inside = node.offset_below(offset);
        lemma_child_zone_paths(node, (count - 1) as nat, query, depth, offset);
        lemma_zone_paths(child, query, below, inside);
        let early = node.zone_paths_in_children((count - 1) as nat, query, depth, offset);
        let early_zones = node.zones_in_children((count - 1) as nat, query, depth, offset);
        let inner = child.zone_paths(query, below, inside);
        let late = inner.map_values(|path: Seq<int>| seq![last] + path);
        let paths = node.zone_paths_in_children(count, query, depth, offset);
        let zones = node.zones_in_children(count, query, depth, offset);
        assert(paths == early + late);
        assert forall|k: int| 0 <= k < paths.len() implies {
            &&& (#[trigger] paths[k]).len() > 0
            &&& 0 <= paths[k][0] < count
            &&& node.has(paths[k])
            &&& zones[k] == node.zone_at(paths[k], offset)
        } by {
            if k < early.len() {
                assert(paths[k] == early[k]);
                assert(zones[k] == early_zones[k]);
            } else {
                let m = k - early.len();
                assert(paths[k] == seq![last] + inner[m]);
                assert(paths[k].drop_first() =~= inner[m]);
                assert(zones[k] == child.zones(query, below, inside)[m]);
            }
        }
        assert forall|i: int, j: int| 0 <= i < j < paths.len() implies #[trigger] paths[i]
            != #[trigger] paths[j] by {
            if j < early.len() {
                assert(paths[i] == early[i] && paths[j] == early[j]);
            } else if i < early.len() {
                assert(paths[i] == early[i]);
                assert(paths[j][0] == last);
            } else {
                let m = i - early.len();
                let n = j - early.len();
                assert(paths[i].drop_first() =~= inner[m]);
                assert(paths[j].drop_first() =~= inner[n]);
                assert(inner[m] != inner[n]);
            }
        }
    }
}

/// Each zone that the search returns belongs to the node at the end of the
/// path recorded for it, and no two of these paths are the same: no node
/// has more than one entry in the result.
pub proof fn lemma_zone_paths(root: Node, query: Query, depth: nat, offset: Vector)
    ensures
        ({
            let paths = root.zone_paths(query, depth, offset);
            let zones = root.zones(query, depth, offset);
            &&& paths.len() == zones.len()
            &&& forall|k: int|
                0 <= k < paths.len() ==> root.has(#[trigger] paths[k]) && zones[k] == root.zone_at(
                    paths[k],
                    offset,
                )
            &&& forall|i: int, j: int|
                0 <= i < j < paths.len() ==> #[trigger] paths[i] != #[trigger] paths[j]
        }),
    decreases root, root.children.len() + 1,
{
    lemma_child_zone_paths(root, root.children.len() as nat, query, depth, offset);
    let paths = root.zone_paths(query, depth, offset);
    let zones = root.zones(query, depth, offset);
    let inner = root.zone_paths_in_children(root.children.len() as nat, query, depth, offset);
    assert forall|i: int, j: int| 0 <= i < j < paths.len() implies #[trigger] paths[i]
        != #[trigger] paths[j] by {
        if root.is_zone(query, offset) {
            if i == 0 {
                assert(paths[j] == inner[j - 1]);
                assert(paths[i].len() == 0);
            } else {
                assert(paths[i] == inner[i - 1] && paths[j] == inner[j - 1]);
            }
        } else {
            assert(paths[i] == inner[i] && paths[j] == inner[j]);
        }
    }
}

/// Each entry of the result of a search holds the bounds of its node moved
/// back by exactly the sum of the translations of the scrolling nodes above
/// it, and the node has no other entry.
pub proof fn lemma_reported_bounds(root: Node, query: Query, k: int)
    requires
        root.in_space(Vector::spec_zero()),
        0 <= k < root.zones(query, 0, Vector::spec_zero()).len(),
    ensures
        ({
            let zones = root.zones(query, 0, Vector::spec_zero());
            let paths = root.zone_paths(query, 0, Vector::spec_zero());
            let node = root.at(paths[k]);
            &&& paths.len() == zones.len()
            &&& root.has(paths[k])
            &&& zones[k].0 == node.id->0
            &&& zones[k].1.x == node.bounds.x - root.scrolled_x(paths[k])
            &&& zones[k].1.y == node.bounds.y - root.scrolled_y(paths[k])
            &&& zones[k].1.width == node.bounds.width
            &&& zones[k].1.height == node.bounds.height
            &&& forall|j: int| 0 <= j < paths.len() && j != k ==> #[trigger] paths[j] != paths[k]
        }),
{
    let zero = Vector::spec_zero();
    let paths = root.zone_paths(query, 0, zero);
    lemma_zone_paths(root, query, 0, zero);
    lemma_scroll_correction(root, paths[k], zero);
    assert forall|j: int| 0 <= j < paths.len() && j != k implies #[trigger] paths[j] != paths[k] by {
        if j < k {
            assert(paths[j] != paths[k]);
        } else {
            assert(paths[k] != paths[j]);
        }
    }
}

} // verus!
