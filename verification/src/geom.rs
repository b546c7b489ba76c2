//! Integer geometry for layout boxes.
//!
//! Coordinates are integer pixels.  A node's `location` is the offset of its
//! border box within its layout parent's frame; a point is "local" to a node
//! when it is expressed relative to the node's own top-left corner.
use vstd::prelude::*;

verus! {

/// Largest magnitude allowed for any single layout value (location, size,
/// padding, border) and for the coordinates of an incoming pointer event.
pub const COORD_LIMIT: i64 = 0x4000_0000;

/// Largest number of nodes a document may hold; together with `COORD_LIMIT`
/// this bounds every coordinate sum formed while walking the tree.
pub const NODE_LIMIT: usize = 0x10_0000;

/// Largest value allowed for either component of the viewport scale ratio.
pub const SCALE_LIMIT: i64 = 1000;

#[derive(Clone, Copy, PartialEq, Eq, Structural, Debug)]
pub struct Point {
    pub x: i64,
    pub y: i64,
}

#[derive(Clone, Copy, PartialEq, Eq, Structural, Debug)]
pub struct Size {
    pub width: i64,
    pub height: i64,
}

#[derive(Clone, Copy, PartialEq, Eq, Structural, Debug)]
pub struct Edges {
    pub left: i64,
    pub top: i64,
    pub right: i64,
    pub bottom: i64,
}

/// The laid-out box of a node, produced by the external layout engine.
#[derive(Clone, Copy, PartialEq, Eq, Structural, Debug)]
pub struct Layout {
    /// Offset of this node's border box within its layout parent's frame.
    pub location: Point,
    /// Size of the border box.
    pub size: Size,
    pub padding: Edges,
    pub border: Edges,
}

pub open spec fn coord_ok(v: i64) -> bool {
    -COORD_LIMIT <= v <= COORD_LIMIT
}

pub open spec fn edges_ok(e: Edges) -> bool {
    &&& 0 <= e.left <= COORD_LIMIT
    &&& 0 <= e.top <= COORD_LIMIT
    &&& 0 <= e.right <= COORD_LIMIT
    &&& 0 <= e.bottom <= COORD_LIMIT
}

pub open spec fn layout_ok(l: Layout) -> bool {
    &&& coord_ok(l.location.x)
    &&& coord_ok(l.location.y)
    &&& 0 <= l.size.width <= COORD_LIMIT
    &&& 0 <= l.size.height <= COORD_LIMIT
    &&& edges_ok(l.padding)
    &&& edges_ok(l.border)
}

/// Whether a point given in a node's own local frame lies inside the node's
/// border box.  The left and top edges are inside, the right and bottom
/// edges are outside.
pub open spec fn box_contains(l: Layout, x: int, y: int) -> bool {
    &&& 0 <= x < l.size.width
    &&& 0 <= y < l.size.height
}

impl Layout {
    /// A zero-sized box at the origin: the layout of a node that the layout
    /// engine has not placed.
    pub fn zero() -> (r: Layout)
        ensures
            r == Layout::spec_zero(),
    {
        Layout {
            location: Point { x: 0, y: 0 },
            size: Size { width: 0, height: 0 },
            padding: Edges { left: 0, top: 0, right: 0, bottom: 0 },
            border: Edges { left: 0, top: 0, right: 0, bottom: 0 },
        }
    }

    pub open spec fn spec_zero() -> Layout {
        Layout {
            location: Point { x: 0, y: 0 },
            size: Size { width: 0, height: 0 },
            padding: Edges { left: 0, top: 0, right: 0, bottom: 0 },
            border: Edges { left: 0, top: 0, right: 0, bottom: 0 },
        }
    }
}

/// Truncating scale of a coordinate by the ratio `num / den`; this is the
/// integer counterpart of multiplying by the viewport's pixel scale factor.
pub open spec fn scale_coord(v: int, num: int, den: int) -> int
    recommends
        1 <= den,
        0 <= num,
{
    if v >= 0 {
        (v * num) / den
    } else {
        -(((-v) * num) / den)
    }
}

} // verus!
