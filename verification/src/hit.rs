//! Hit-testing: which node's layout box contains a point, and the
//! parent-frame translation that the ancestor climb uses.
//!
//! A pointer position enters in the root's frame.  Descending into a child
//! subtracts the child's `location`, so a returned hit carries the point in
//! the hit node's own local frame.  Among overlapping siblings the later
//! child wins: children are checked topmost (last in paint order) first.
use vstd::prelude::*;
use crate::geom::{COORD_LIMIT, NODE_LIMIT, box_contains};
use crate::document::Document;
use crate::node::Node;

verus! {

/// A hit: a node id and the point in that node's local coordinate space.
#[derive(Clone, Copy, PartialEq, Eq, Structural, Debug)]
pub struct HitResult {
    pub node_id: usize,
    pub x: i64,
    pub y: i64,
}

/// Hit-test of the subtree rooted at `id`, with `(x, y)` given in `id`'s
/// own local frame: the deepest, topmost node whose box contains the
/// point, with the point translated into that node's frame.
pub open spec fn spec_hit_from(d: Document, id: int, x: int, y: int) -> Option<(int, int, int)>
    decreases d.nodes@.len() - id, 1int, 0int,
{
    if !(0 <= id < d.nodes@.len()) {
        None
    } else if !box_contains(d.nodes@[id].layout, x, y) {
        None
    } else {
        match spec_hit_children(d, id, d.nodes@[id].children@.len() as int, x, y) {
            Some(h) => Some(h),
            None => Some((id, x, y)),
        }
    }
}

/// Hit-test of the first `k` children of node `id`, later children first.
pub open spec fn spec_hit_children(d: Document, id: int, k: int, x: int, y: int) -> Option<
    (int, int, int),
>
    decreases d.nodes@.len() - id, 0int, k,
{
    if !(0 <= id < d.nodes@.len()) || k <= 0 || k > d.nodes@[id].children@.len() {
        None
    } else {
        let c = d.nodes@[id].children@[k - 1] as int;
        let down = if id < c < d.nodes@.len() {
            spec_hit_from(
                d,
                c,
                x - d.nodes@[c].layout.location.x,
                y - d.nodes@[c].layout.location.y,
            )
        } else {
            None
        };
        match down {
            Some(h) => Some(h),
            None => spec_hit_children(d, id, k - 1, x, y),
        }
    }
}

/// The document-level hit test, with `(x, y)` in the root's frame.
pub open spec fn spec_hit(d: Document, x: int, y: int) -> Option<(int, int, int)> {
    spec_hit_from(d, 0, x, y)
}

/// Whether an executable hit matches a spec-level one.
pub open spec fn hit_matches(r: Option<HitResult>, s: Option<(int, int, int)>) -> bool {
    match r {
        Some(h) => s == Some((h.node_id as int, h.x as int, h.y as int)),
        None => s is None,
    }
}

/// Magnitude bound that holds of a point handed to the subtree of `id`.
pub open spec fn point_bound(id: int, v: int) -> bool {
    -COORD_LIMIT * (2 + id) <= v <= COORD_LIMIT * (2 + id)
}

fn hit_from(d: &Document, id: usize, x: i64, y: i64) -> (r: Option<HitResult>)
    requires
        d.wf(),
        id < d.nodes@.len(),
        point_bound(id as int, x as int),
        point_bound(id as int, y as int),
    ensures
        hit_matches(r, spec_hit_from(*d, id as int, x as int, y as int)),
        r matches Some(h) ==> h.node_id < d.nodes@.len() && point_bound(
            h.node_id as int,
            h.x as int,
        ) && point_bound(h.node_id as int, h.y as int),
    decreases d.nodes@.len() - id, 1int, 0int,
{
    let node = &d.nodes[id];
    if !(0 <= x && x < node.layout.size.width && 0 <= y && y < node.layout.size.height) {
        return None;
    }
    let k = node.children.len();
    match hit_children(d, id, k, x, y) {
        Some(h) => Some(h),
        None => Some(HitResult { node_id: id, x, y }),
    }
}

fn hit_children(d: &Document, id: usize, k: usize, x: i64, y: i64) -> (r: Option<HitResult>)
    requires
        d.wf(),
        id < d.nodes@.len(),
        k <= d.nodes@[id as int].children@.len(),
        point_bound(id as int, x as int),
        point_bound(id as int, y as int),
    ensures
        hit_matches(r, spec_hit_children(*d, id as int, k as int, x as int, y as int)),
        r matches Some(h) ==> h.node_id < d.nodes@.len() && point_bound(
            h.node_id as int,
            h.x as int,
        ) && point_bound(h.node_id as int, h.y as int),
    decreases d.nodes@.len() - id, 0int, k,
{
    if k == 0 {
        return None;
    }
    let c = d.nodes[id].children[k - 1];
    proof {
        assert(id < c < d.nodes@.len());
        assert(point_bound(c as int, x as int - d.nodes@[c as int].layout.location.x));
        assert(point_bound(c as int, y as int - d.nodes@[c as int].layout.location.y));
    }
    let cx = x - d.nodes[c].layout.location.x;
    let cy = y - d.nodes[c].layout.location.y;
    match hit_from(d, c, cx, cy) {
        Some(h) => Some(h),
        None => hit_children(d, id, k - 1, x, y),
    }
}

impl Document {
    /// The topmost node whose layout box contains the point, with the
    /// point translated into that node's local frame.
    pub fn hit(&self, x: i64, y: i64) -> (r: Option<HitResult>)
        requires
            self.wf(),
            -COORD_LIMIT <= x <= COORD_LIMIT,
            -COORD_LIMIT <= y <= COORD_LIMIT,
        ensures
            hit_matches(r, spec_hit(*self, x as int, y as int)),
            r matches Some(h) ==> h.node_id < self.nodes@.len() && point_bound(
                h.node_id as int,
                h.x as int,
            ) && point_bound(h.node_id as int, h.y as int),
    {
        if self.nodes.len() == 0 {
            return None;
        }
        hit_from(self, 0, x, y)
    }
}

/// What climbing one step does: the layout parent's id, with the point
/// carried into the parent's frame by adding the node's own offset.
pub open spec fn spec_parent_hit(node: Node, x: int, y: int) -> Option<(int, int, int)> {
    match node.layout_parent {
        Some(p) => Some(
            (p as int, x + node.layout.location.x as int, y + node.layout.location.y as int),
    ),
        None => None,
    }
}

/// One step of the ancestor climb: the hit equivalent to `(x, y)` in the
/// node's layout parent, or `None` at the tree root.
pub fn parent_hit(node: &Node, x: i64, y: i64) -> (r: Option<HitResult>)
    requires
        crate::geom::layout_ok(node.layout),
        point_bound(NODE_LIMIT as int, x as int),
        point_bound(NODE_LIMIT as int, y as int),
    ensures
        hit_matches(r, spec_parent_hit(*node, x as int, y as int)),
{
    proof {
        assert(COORD_LIMIT * (2 + NODE_LIMIT as int) + COORD_LIMIT < 0x7fff_ffff_ffff_ffff) by (nonlinear_arith);
    }
    match node.layout_parent {
        Some(p) => Some(
            HitResult { node_id: p, x: x + node.layout.location.x, y: y + node.layout.location.y },
        ),
        None => None,
    }
}

/// A returned hit's box really contains the returned local point: whenever
/// the hit test returns a node, the point lies inside that node's box.  In
/// the contrapositive, a point that lies outside every node's box is hit
/// by no node.
pub proof fn lemma_hit_inside_box(d: Document, id: int, x: int, y: int)
    ensures
        spec_hit_from(d, id, x, y) matches Some(h) ==> 0 <= h.0 < d.nodes@.len() && box_contains(
            d.nodes@[h.0].layout,
            h.1,
            h.2,
        ),
    decreases d.nodes@.len() - id, 1int, 0int,
{
    if 0 <= id < d.nodes@.len() && box_contains(d.nodes@[id].layout, x, y) {
        lemma_hit_children_inside_box(d, id, d.nodes@[id].children@.len() as int, x, y);
    }
}

pub proof fn lemma_hit_children_inside_box(d: Document, id: int, k: int, x: int, y: int)
    ensures
        spec_hit_children(d, id, k, x, y) matches Some(h) ==> 0 <= h.0 < d.nodes@.len()
            && box_contains(d.nodes@[h.0].layout, h.1, h.2),
    decreases d.nodes@.len() - id, 0int, k,
{
    if !(0 <= id < d.nodes@.len()) || k <= 0 || k > d.nodes@[id].children@.len() {
    } else {
        let c = d.nodes@[id].children@[k - 1] as int;
        if id < c < d.nodes@.len() {
            lemma_hit_inside_box(
                d,
                c,
                x - d.nodes@[c].layout.location.x,
                y - d.nodes@[c].layout.location.y,
            );
        }
        lemma_hit_children_inside_box(d, id, k - 1, x, y);
    }
}

/// A point outside the root's box is hit by nothing at all.
pub proof fn lemma_hit_outside_root(d: Document, x: int, y: int)
    requires
        d.nodes@.len() > 0 ==> !box_contains(d.nodes@[0].layout, x, y),
    ensures
        spec_hit(d, x, y) is None,
{
}

} // verus!
