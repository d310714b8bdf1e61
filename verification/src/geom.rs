//! Integer 2D vectors and axis-aligned bounding boxes.
//!
//! An `AABB` is a rectangle described by a center point and a half-extent per
//! axis. The overlap of two boxes along one axis is the sum of their
//! half-extents minus the distance between their centers; the boxes collide
//! exactly when the overlap is positive on both axes.

use vstd::prelude::*;

verus! {

/// Largest magnitude a box center may have in a displacement query.
pub const CENTER_LIMIT: i64 = 0x4000_0000;

/// Largest half-extent a box may have in a displacement query.
pub const SIZE_LIMIT: i64 = 0x2000_0000;

/// Largest coordinate magnitude accepted by the squared-distance helpers.
pub const COORD_LIMIT: i64 = 0x2000_0000;

/// A point or extent on the integer world grid.
#[derive(Clone, Copy, PartialEq, Eq, Structural, Debug)]
pub struct Vec2 {
    pub x: i64,
    pub y: i64,
}

/// An axis-aligned bounding box: a center and a half-extent per axis.
#[derive(Clone, Copy, PartialEq, Eq, Structural, Debug)]
pub struct AABB {
    pub center: Vec2,
    pub size: Vec2,
}

/// Magnitude of an integer.
pub open spec fn abs_int(v: int) -> int {
    if v < 0 {
        -v
    } else {
        v
    }
}

/// Both coordinates no larger in magnitude than `limit`.
pub open spec fn vec2_within(v: Vec2, limit: int) -> bool {
    &&& -limit <= v.x <= limit
    &&& -limit <= v.y <= limit
}

/// Both components are non-negative half-extents no larger than `limit`.
pub open spec fn size_within(v: Vec2, limit: int) -> bool {
    &&& 0 <= v.x <= limit
    &&& 0 <= v.y <= limit
}

/// A box whose center and half-extents a displacement query accepts.
pub open spec fn box_within_limits(b: AABB) -> bool {
    &&& vec2_within(b.center, CENTER_LIMIT as int)
    &&& size_within(b.size, SIZE_LIMIT as int)
}

/// Overlap extent of two boxes along the x axis; positive when they meet there.
pub open spec fn overlap_x(a: AABB, b: AABB) -> int {
    (a.size.x + b.size.x) - abs_int(a.center.x - b.center.x)
}

/// Overlap extent of two boxes along the y axis; positive when they meet there.
pub open spec fn overlap_y(a: AABB, b: AABB) -> int {
    (a.size.y + b.size.y) - abs_int(a.center.y - b.center.y)
}

/// What `AABB::displacement` returns: `None` when the boxes do not strictly
/// overlap, otherwise the per-axis overlap extents, both positive.
pub open spec fn disp_spec(a: AABB, b: AABB) -> Option<Vec2> {
    if overlap_x(a, b) > 0 && overlap_y(a, b) > 0 {
        Some(Vec2 { x: overlap_x(a, b) as i64, y: overlap_y(a, b) as i64 })
    } else {
        None
    }
}

/// Squared Euclidean length.
pub open spec fn len_sq_spec(v: Vec2) -> int {
    v.x * v.x + v.y * v.y
}

/// Squared Euclidean distance between two points.
pub open spec fn dist_sq_spec(a: Vec2, b: Vec2) -> int {
    (a.x - b.x) * (a.x - b.x) + (a.y - b.y) * (a.y - b.y)
}

impl Vec2 {
    /// Squared length, used to rank contacts by how deep the overlap is.
    pub fn length_squared(&self) -> (r: i64)
        requires
            vec2_within(*self, CENTER_LIMIT as int),
        ensures
            r == len_sq_spec(*self),
    {
        proof {
            assert(self.x * self.x <= CENTER_LIMIT * CENTER_LIMIT && self.y * self.y <= CENTER_LIMIT
                * CENTER_LIMIT) by (nonlinear_arith)
                requires
                    -CENTER_LIMIT <= self.x <= CENTER_LIMIT,
                    -CENTER_LIMIT <= self.y <= CENTER_LIMIT,
            ;
            assert(self.x * self.x >= 0 && self.y * self.y >= 0) by (nonlinear_arith);
        }
        self.x * self.x + self.y * self.y
    }
}

/// Squared distance between two points of the world.
pub fn dist_sq(a: Vec2, b: Vec2) -> (r: i64)
    requires
        vec2_within(a, COORD_LIMIT as int),
        vec2_within(b, COORD_LIMIT as int),
    ensures
        r == dist_sq_spec(a, b),
{
    let dx = a.x - b.x;
    let dy = a.y - b.y;
    proof {
        assert(dx * dx <= 4 * COORD_LIMIT * COORD_LIMIT && dy * dy <= 4 * COORD_LIMIT * COORD_LIMIT)
            by (nonlinear_arith)
            requires
                -2 * COORD_LIMIT <= dx <= 2 * COORD_LIMIT,
                -2 * COORD_LIMIT <= dy <= 2 * COORD_LIMIT,
        ;
        assert(dx * dx >= 0 && dy * dy >= 0) by (nonlinear_arith);
    }
    dx * dx + dy * dy
}

impl AABB {
    /// Per-axis overlap between this box and `other`, or `None` when the two
    /// boxes do not strictly overlap. When present, both components are
    /// positive: the minimum push along each axis that would separate the
    /// boxes.
    pub fn displacement(&self, other: AABB) -> (r: Option<Vec2>)
        requires
            box_within_limits(*self),
            box_within_limits(other),
        ensures
            r == disp_spec(*self, other),
    {
        let dcx = self.center.x - other.center.x;
        let dcy = self.center.y - other.center.y;
        let adx = if dcx < 0 {
            -dcx
        } else {
            dcx
        };
        let ady = if dcy < 0 {
            -dcy
        } else {
            dcy
        };
        let ox = (self.size.x + other.size.x) - adx;
        let oy = (self.size.y + other.size.y) - ady;
        if ox > 0 && oy > 0 {
            Some(Vec2 { x: ox, y: oy })
        } else {
            None
        }
    }
}

} // verus!
