//! Grid points, axis aligned boxes and the tolerances of the offset bookkeeping.

use vstd::prelude::*;

verus! {

/// Number of grid units in one model unit.
pub const GRID_SCALE: i64 = 1_000_000_000;

/// Largest magnitude of a coordinate. The difference of two coordinates in range fits
/// an `i64`.
pub const COORD_MAX: i64 = 0x3FFF_FFFF_FFFF_FFFF;

/// Two positions closer than this, in grid units, count as one position.
pub const POS_EQUAL_EPS: i64 = 10_000;

/// Slack, in grid units, granted to a point when its distance to an input loop is held
/// against the offset.
pub const OFFSET_TOL: i64 = 100_000;

/// Half the side, in grid units, of the square laid around a slice end when slices are
/// joined.
pub const SLICE_JOIN_EPS: i64 = 100_000;

/// A position on the grid.
#[derive(Clone, Copy, Debug, PartialEq, Eq, Structural)]
pub struct Point {
    pub x: i64,
    pub y: i64,
}

/// An axis aligned box, edges included.
#[derive(Clone, Copy, Debug, PartialEq, Eq, Structural)]
pub struct Aabb {
    pub min_x: i64,
    pub min_y: i64,
    pub max_x: i64,
    pub max_y: i64,
}

/// Whether `c` is a coordinate of the grid.
pub open spec fn coord_in_range(c: int) -> bool {
    -COORD_MAX <= c <= COORD_MAX
}

/// `c` moved to the nearest coordinate of the grid.
pub open spec fn clamp_coord(c: int) -> int {
    if c < -COORD_MAX {
        -(COORD_MAX as int)
    } else if c > COORD_MAX {
        COORD_MAX as int
    } else {
        c
    }
}

/// The square of the distance between two points.
pub open spec fn dist_squared(a: Point, b: Point) -> int {
    (a.x - b.x) * (a.x - b.x) + (a.y - b.y) * (a.y - b.y)
}

impl Point {
    /// Both coordinates are coordinates of the grid.
    pub open spec fn in_range(self) -> bool {
        coord_in_range(self.x as int) && coord_in_range(self.y as int)
    }

    /// Whether `self` and `other` differ by at most `reach` along each axis.
    pub open spec fn within(self, other: Point, reach: int) -> bool {
        &&& -reach <= self.x - other.x <= reach
        &&& -reach <= self.y - other.y <= reach
    }

    /// Whether both coordinates are coordinates of the grid.
    pub fn is_in_range(&self) -> (r: bool)
        ensures
            r == self.in_range(),
    {
        -COORD_MAX <= self.x && self.x <= COORD_MAX && -COORD_MAX <= self.y && self.y <= COORD_MAX
    }

    /// The square of the distance from `self` to `other`.
    pub fn dist_squared_to(self, other: Point) -> (d: i128)
        requires
            self.in_range(),
            other.in_range(),
        ensures
            d == dist_squared(self, other),
    {
        let dx: i128 = (self.x as i128) - (other.x as i128);
        let dy: i128 = (self.y as i128) - (other.y as i128);
        assert(dx * dx <= 0x7FFF_FFFF_FFFF_FFFE * 0x7FFF_FFFF_FFFF_FFFE && dx * dx >= 0) by (nonlinear_arith)
            requires
                -0x7FFF_FFFF_FFFF_FFFE <= dx <= 0x7FFF_FFFF_FFFF_FFFE,
        ;
        assert(dy * dy <= 0x7FFF_FFFF_FFFF_FFFE * 0x7FFF_FFFF_FFFF_FFFE && dy * dy >= 0) by (nonlinear_arith)
            requires
                -0x7FFF_FFFF_FFFF_FFFE <= dy <= 0x7FFF_FFFF_FFFF_FFFE,
        ;
        dx * dx + dy * dy
    }
}

impl Aabb {
    /// The corners are ordered and lie on the grid.
    pub open spec fn wf(self) -> bool {
        &&& coord_in_range(self.min_x as int)
        &&& coord_in_range(self.min_y as int)
        &&& coord_in_range(self.max_x as int)
        &&& coord_in_range(self.max_y as int)
        &&& self.min_x <= self.max_x
        &&& self.min_y <= self.max_y
    }

    /// Whether the two boxes share a point. Touching edges and corners count.
    pub open spec fn overlaps(self, other: Aabb) -> bool {
        &&& self.min_x <= other.max_x
        &&& other.min_x <= self.max_x
        &&& self.min_y <= other.max_y
        &&& other.min_y <= self.max_y
    }

    /// The smallest box that holds both boxes.
    pub open spec fn union(self, other: Aabb) -> Aabb {
        Aabb {
            min_x: if self.min_x <= other.min_x { self.min_x } else { other.min_x },
            min_y: if self.min_y <= other.min_y { self.min_y } else { other.min_y },
            max_x: if self.max_x >= other.max_x { self.max_x } else { other.max_x },
            max_y: if self.max_y >= other.max_y { self.max_y } else { other.max_y },
        }
    }

    /// The square of half side `reach` around `center`, cut off at the edge of the grid.
    pub open spec fn spec_around(center: Point, reach: int) -> Aabb {
        Aabb {
            min_x: clamp_coord(center.x - reach) as i64,
            min_y: clamp_coord(center.y - reach) as i64,
            max_x: clamp_coord(center.x + reach) as i64,
            max_y: clamp_coord(center.y + reach) as i64,
        }
    }

    /// Whether the corners are ordered and lie on the grid.
    pub fn is_wf(&self) -> (r: bool)
        ensures
            r == self.wf(),
    {
        -COORD_MAX <= self.min_x && self.min_x <= self.max_x && self.max_x <= COORD_MAX
            && -COORD_MAX <= self.min_y && self.min_y <= self.max_y && self.max_y <= COORD_MAX
    }

    /// Whether the two boxes share a point.
    pub fn intersects(&self, other: &Aabb) -> (r: bool)
        ensures
            r == self.overlaps(*other),
    {
        self.min_x <= other.max_x && other.min_x <= self.max_x && self.min_y <= other.max_y
            && other.min_y <= self.max_y
    }

    /// The square of half side `reach` around `center`, cut off at the edge of the grid.
    pub fn around(center: Point, reach: i64) -> (r: Aabb)
        requires
            0 <= reach <= COORD_MAX,
        ensures
            r == Aabb::spec_around(center, reach as int),
            r.wf(),
    {
        let x: i128 = center.x as i128;
        let y: i128 = center.y as i128;
        let d: i128 = reach as i128;
        Aabb {
            min_x: clamp_to_grid(x - d),
            min_y: clamp_to_grid(y - d),
            max_x: clamp_to_grid(x + d),
            max_y: clamp_to_grid(y + d),
        }
    }
}

/// `c` moved to the nearest coordinate of the grid.
pub fn clamp_to_grid(c: i128) -> (r: i64)
    ensures
        r == clamp_coord(c as int),
        coord_in_range(r as int),
{
    if c < -(COORD_MAX as i128) {
        -COORD_MAX
    } else if c > COORD_MAX as i128 {
        COORD_MAX
    } else {
        c as i64
    }
}

/// Squares laid around two points of the grid share a point exactly when the points
/// differ by at most the sum of the half sides along each axis: cutting the squares off
/// at the edge of the grid changes nothing.
pub proof fn lemma_around_overlaps(a: Point, b: Point, reach_a: int, reach_b: int)
    requires
        a.in_range(),
        b.in_range(),
        0 <= reach_a <= COORD_MAX,
        0 <= reach_b <= COORD_MAX,
    ensures
        Aabb::spec_around(a, reach_a).overlaps(Aabb::spec_around(b, reach_b)) <==> a.within(
            b,
            reach_a + reach_b,
        ),
{
}

} // verus!
