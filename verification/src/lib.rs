//! Drop-zone discovery and highlight reconciliation for drag-and-drop.
pub mod board;
pub mod geometry;
pub mod highlight;
pub mod identity;
pub mod tree;
pub mod widget;

use crate::geometry::{Point, Rectangle, Vector};
use crate::widget::operation::drop::{query_of, visit, ContainsPoint, Node, ZoneFilter};
use iced::advanced::widget::Id;
use vstd::prelude::*;

verus! {

/// The zones of the tree under `root` whose on-screen bounds contain `point`,
/// in pre-order. Only the identities in `options` are eligible, all of them
/// where it is `None`; once `depth` zones are recorded on a branch the search
/// does not go deeper there.
pub fn zones_on_point(
    root: &Node,
    point: Point,
    options: Option<Vec<Id>>,
    depth: Option<usize>,
) -> (zones: Vec<(Id, Rectangle)>)
    requires
        root.in_space(Vector::spec_zero()),
    ensures
        zones@ == root.zones(
            query_of(ContainsPoint { point }, options, depth),
            0,
            Vector::spec_zero(),
        ),
{
    find_zones(root, ContainsPoint { point }, options, depth)
}

/// The zones of the tree under `root` whose on-screen bounds pass `filter`,
/// in pre-order. Only the identities in `options` are eligible, all of them
/// where it is `None`; once `depth` zones are recorded on a branch the search
/// does not go deeper there.
pub fn find_zones<F: ZoneFilter>(
    root: &Node,
    filter: F,
    options: Option<Vec<Id>>,
    depth: Option<usize>,
) -> (zones: Vec<(Id, Rectangle)>)
    requires
        root.in_space(Vector::spec_zero()),
    ensures
        zones@ == root.zones(query_of(filter, options, depth), 0, Vector::spec_zero()),
{
    let mut search = crate::widget::operation::drop::find_zones(filter, options, depth);
    visit(&mut search, root);
    search.zones
}

} // verus!
