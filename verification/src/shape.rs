//! Polylines as the bookkeeping sees them, loops with their segment index, and shapes.

use crate::geometry::Aabb;
use crate::geometry::Point;
use crate::spatial::all_wf;
use crate::spatial::build_index;
use crate::spatial::hull;
use crate::spatial::index_bounds;
use crate::spatial::index_boxes;
use crate::spatial::index_clone;
use crate::spatial::lemma_hull_wf;
use crate::spatial::BoxIndex;
use vstd::prelude::*;

verus! {

/// The sign of the signed area that a closed polyline encloses, arcs included.
/// A counter clockwise loop has positive area, a clockwise loop negative area.
#[derive(Clone, Copy, Debug, PartialEq, Eq, Structural)]
pub enum AreaSign {
    Negative,
    Zero,
    Positive,
}

/// What the bookkeeping reads of a polyline: where its vertices lie, whether it is
/// closed, and the sign of its area. The curvature of its segments is not held, for no
/// decision made here depends on it. The key is the caller's: it is carried along
/// unchanged, so that the caller finds the full polyline again.
#[derive(Debug)]
pub struct Polyline {
    pub key: usize,
    pub vertices: Vec<Point>,
    pub is_closed: bool,
    pub area: AreaSign,
}

/// The value of a `Polyline`.
pub ghost struct PolylineView {
    pub key: usize,
    pub vertices: Seq<Point>,
    pub is_closed: bool,
    pub area: AreaSign,
}

impl PolylineView {
    /// Every vertex lies on the grid.
    pub open spec fn wf(self) -> bool {
        forall|i: int| 0 <= i < self.vertices.len() ==> (#[trigger] self.vertices[i]).in_range()
    }

    /// The number of segments: one from each vertex of a closed polyline, one less for
    /// an open one, none for fewer than two vertices.
    pub open spec fn segment_count(self) -> nat {
        if self.vertices.len() < 2 {
            0
        } else if self.is_closed {
            self.vertices.len()
        } else {
            (self.vertices.len() - 1) as nat
        }
    }
}

impl View for Polyline {
    type V = PolylineView;

    open spec fn view(&self) -> PolylineView {
        PolylineView {
            key: self.key,
            vertices: self.vertices@,
            is_closed: self.is_closed,
            area: self.area,
        }
    }
}

impl Clone for Polyline {
    fn clone(&self) -> (copy: Self)
        ensures
            copy@ == self@,
    {
        Polyline {
            key: self.key,
            vertices: self.vertices.clone(),
            is_closed: self.is_closed,
            area: self.area,
        }
    }
}

impl Polyline {
    /// The number of segments.
    pub fn segment_count(&self) -> (n: usize)
        ensures
            n == self@.segment_count(),
    {
        if self.vertices.len() < 2 {
            0
        } else if self.is_closed {
            self.vertices.len()
        } else {
            self.vertices.len() - 1
        }
    }

    /// Whether every vertex lies on the grid.
    pub fn is_wf(&self) -> (r: bool)
        ensures
            r == self@.wf(),
    {
        let mut i: usize = 0;
        while i < self.vertices.len()
            invariant
                i <= self.vertices.len(),
                forall|k: int| 0 <= k < i ==> (#[trigger] self.vertices@[k]).in_range(),
            decreases self.vertices.len() - i,
        {
            if !self.vertices[i].is_in_range() {
                assert(!self@.vertices[i as int].in_range());
                return false;
            }
            i += 1;
        }
        true
    }
}

/// Whether every box of `boxes` is well formed.
pub fn boxes_are_wf(boxes: &Vec<Aabb>) -> (r: bool)
    ensures
        r == all_wf(boxes@),
{
    let mut i: usize = 0;
    while i < boxes.len()
        invariant
            i <= boxes.len(),
            forall|k: int| 0 <= k < i ==> (#[trigger] boxes@[k]).wf(),
        decreases boxes.len() - i,
    {
        if !boxes[i].is_wf() {
            return false;
        }
        i += 1;
    }
    true
}

/// A polyline together with an index over the boxes of its segments.
pub struct IndexedPolyline {
    pub polyline: Polyline,
    pub spatial_index: BoxIndex,
}

/// The value of an `IndexedPolyline`: the polyline and the boxes that its index holds,
/// one for each segment and in their order.
pub ghost struct IndexedPolylineView {
    pub polyline: PolylineView,
    pub segment_boxes: Seq<Aabb>,
}

impl IndexedPolylineView {
    /// The polyline has a segment, lies on the grid, and each segment has its well
    /// formed box.
    pub open spec fn wf(self) -> bool {
        &&& self.polyline.wf()
        &&& self.polyline.segment_count() >= 1
        &&& self.segment_boxes.len() == self.polyline.segment_count()
        &&& all_wf(self.segment_boxes)
    }

    /// The smallest box that holds every segment box.
    pub open spec fn bounds(self) -> Aabb {
        hull(self.segment_boxes, self.segment_boxes.len())
    }
}

impl View for IndexedPolyline {
    type V = IndexedPolylineView;

    open spec fn view(&self) -> IndexedPolylineView {
        IndexedPolylineView {
            polyline: self.polyline@,
            segment_boxes: index_boxes(self.spatial_index),
        }
    }
}

impl Clone for IndexedPolyline {
    fn clone(&self) -> (copy: Self)
        ensures
            copy@ == self@,
    {
        IndexedPolyline {
            polyline: self.polyline.clone(),
            spatial_index: index_clone(&self.spatial_index),
        }
    }
}

impl IndexedPolyline {
    /// Pairs `polyline` with an index over `segment_boxes`. There is no result when the
    /// polyline has fewer than two vertices or leaves the grid, or when the boxes are
    /// not one well formed box for each segment.
    pub fn new(polyline: Polyline, segment_boxes: &Vec<Aabb>) -> (made: Option<Self>)
        ensures
            made.is_some() <==> (IndexedPolylineView {
                polyline: polyline@,
                segment_boxes: segment_boxes@,
            }).wf(),
            made matches Some(p) ==> p@ == (IndexedPolylineView {
                polyline: polyline@,
                segment_boxes: segment_boxes@,
            }),
    {
        let count = polyline.segment_count();
        if count == 0 || segment_boxes.len() != count {
            return None;
        }
        if !polyline.is_wf() || !boxes_are_wf(segment_boxes) {
            return None;
        }
        let spatial_index = build_index(segment_boxes);
        Some(IndexedPolyline { polyline, spatial_index })
    }

    /// The smallest box that holds the whole polyline.
    pub fn bounds(&self) -> (r: Aabb)
        requires
            self@.wf(),
        ensures
            r == self@.bounds(),
            r.wf(),
    {
        proof {
            lemma_hull_wf(self@.segment_boxes, self@.segment_boxes.len());
        }
        index_bounds(&self.spatial_index).unwrap()
    }
}

/// A raw offset of one input loop.
pub struct OffsetLoop {
    /// The position of the input loop among all input loops, counter clockwise loops
    /// first.
    pub parent_loop_idx: usize,
    pub indexed_pline: IndexedPolyline,
}

/// The value of an `OffsetLoop`.
pub ghost struct OffsetLoopView {
    pub parent_loop_idx: usize,
    pub indexed_pline: IndexedPolylineView,
}

impl View for OffsetLoop {
    type V = OffsetLoopView;

    open spec fn view(&self) -> OffsetLoopView {
        OffsetLoopView { parent_loop_idx: self.parent_loop_idx, indexed_pline: self.indexed_pline@ }
    }
}

/// Closed polylines sorted by orientation.
pub struct ClosedPlineSet {
    pub ccw_loops: Vec<Polyline>,
    pub cw_loops: Vec<Polyline>,
}

/// The values of the loops of `loops`, in order.
pub open spec fn loop_views(loops: Seq<IndexedPolyline>) -> Seq<IndexedPolylineView> {
    Seq::new(loops.len(), |i: int| loops[i]@)
}

/// The bounds of the loops of `loops`, in order.
pub open spec fn loop_bounds(loops: Seq<IndexedPolylineView>) -> Seq<Aabb> {
    Seq::new(loops.len(), |i: int| loops[i].bounds())
}

/// Every loop of `loops` is well formed.
pub open spec fn all_wf_loops(loops: Seq<IndexedPolylineView>) -> bool {
    forall|i: int| 0 <= i < loops.len() ==> (#[trigger] loops[i]).wf()
}

/// Every loop of `loops` is well formed and has area of sign `sign`.
pub open spec fn all_oriented(loops: Seq<IndexedPolylineView>, sign: AreaSign) -> bool {
    forall|i: int|
        0 <= i < loops.len() ==> (#[trigger] loops[i]).wf() && loops[i].polyline.area == sign
}

/// Every loop of `loops` is well formed.
pub open spec fn loops_wf(loops: Seq<IndexedPolyline>) -> bool {
    forall|k: int| 0 <= k < loops.len() ==> (#[trigger] loops[k])@.wf()
}

/// Appends to `bounds` the bounds of each loop of `loops`.
fn push_bounds(bounds: &mut Vec<Aabb>, loops: &Vec<IndexedPolyline>)
    requires
        loops_wf(loops@),
        all_wf(old(bounds)@),
    ensures
        final(bounds)@ == old(bounds)@ + loop_bounds(loop_views(loops@)),
        all_wf(final(bounds)@),
{
    let ghost all = loop_bounds(loop_views(loops@));
    let mut k: usize = 0;
    assert(bounds@ == old(bounds)@ + all.take(0));
    while k < loops.len()
        invariant
            k <= loops.len(),
            loops_wf(loops@),
            all == loop_bounds(loop_views(loops@)),
            bounds@ == old(bounds)@ + all.take(k as int),
            all_wf(bounds@),
        decreases loops.len() - k,
    {
        let ghost before = bounds@;
        assert(loops@[k as int]@.wf());
        let b = loops[k].bounds();
        bounds.push(b);
        assert(old(bounds)@ + all.take(k + 1) == before.push(b));
        k += 1;
    }
    assert(all.take(k as int) == all);
}

/// Anything that holds the loops of a shape: the counter clockwise loops at positions
/// from 0, the clockwise loops after them.
pub trait ShapeSource {
    type Loop;

    /// The counter clockwise loops, in order.
    spec fn ccw_loops(&self) -> Seq<Self::Loop>;

    /// The clockwise loops, in order.
    spec fn cw_loops(&self) -> Seq<Self::Loop>;

    fn ccw_loop_count(&self) -> (n: usize)
        ensures
            n == self.ccw_loops().len(),
    ;

    fn cw_loop_count(&self) -> (n: usize)
        ensures
            n == self.cw_loops().len(),
    ;

    fn get_loop(&self, i: usize) -> (found: &Self::Loop)
        requires
            i < self.ccw_loops().len() + self.cw_loops().len(),
        ensures
            *found == (if i < self.ccw_loops().len() {
                self.ccw_loops()[i as int]
            } else {
                self.cw_loops()[i - self.ccw_loops().len()]
            }),
    ;
}

/// Anything that holds the segment index of each loop of a shape.
pub trait ShapeIndex {
    /// The indexes, in the order of the loops.
    spec fn loop_indexes(&self) -> Seq<BoxIndex>;

    fn get_loop_index(&self, i: usize) -> (found: Option<&BoxIndex>)
        ensures
            found == (if i < self.loop_indexes().len() {
                Some(&self.loop_indexes()[i as int])
            } else {
                None
            }),
    ;
}

impl ShapeIndex for Vec<BoxIndex> {
    open spec fn loop_indexes(&self) -> Seq<BoxIndex> {
        self@
    }

    fn get_loop_index(&self, i: usize) -> (found: Option<&BoxIndex>) {
        if i < self.len() {
            Some(&self[i])
        } else {
            None
        }
    }
}

/// A planar region: counter clockwise boundary loops, clockwise hole loops, and an
/// index over the bounds of all of them, boundaries first.
pub struct Shape {
    pub ccw_plines: Vec<IndexedPolyline>,
    pub cw_plines: Vec<IndexedPolyline>,
    pub plines_index: BoxIndex,
}

/// The value of a `Shape`.
pub ghost struct ShapeView {
    pub ccw_plines: Seq<IndexedPolylineView>,
    pub cw_plines: Seq<IndexedPolylineView>,
    pub index_boxes: Seq<Aabb>,
}

impl ShapeView {
    /// Every loop is well formed, and the index holds the bounds of each loop.
    pub open spec fn wf(self) -> bool {
        &&& all_wf_loops(self.ccw_plines)
        &&& all_wf_loops(self.cw_plines)
        &&& self.index_boxes == loop_bounds(self.ccw_plines + self.cw_plines)
    }

    /// Boundary loops have positive area and hole loops negative area.
    pub open spec fn oriented(self) -> bool {
        &&& all_oriented(self.ccw_plines, AreaSign::Positive)
        &&& all_oriented(self.cw_plines, AreaSign::Negative)
    }
}

impl View for Shape {
    type V = ShapeView;

    open spec fn view(&self) -> ShapeView {
        ShapeView {
            ccw_plines: loop_views(self.ccw_plines@),
            cw_plines: loop_views(self.cw_plines@),
            index_boxes: index_boxes(self.plines_index),
        }
    }
}

impl Shape {
    /// A shape of the given loops, with an index over the bounds of its loops, the
    /// counter clockwise ones first.
    pub fn from_loops(ccw_plines: Vec<IndexedPolyline>, cw_plines: Vec<IndexedPolyline>) -> (shape: Shape)
        requires
            loops_wf(ccw_plines@),
            loops_wf(cw_plines@),
        ensures
            shape.ccw_plines@ == ccw_plines@,
            shape.cw_plines@ == cw_plines@,
            shape@.wf(),
    {
        let mut bounds: Vec<Aabb> = Vec::new();
        push_bounds(&mut bounds, &ccw_plines);
        push_bounds(&mut bounds, &cw_plines);
        let plines_index = build_index(&bounds);
        assert(bounds@ == loop_bounds(loop_views(ccw_plines@) + loop_views(cw_plines@)));
        Shape { ccw_plines, cw_plines, plines_index }
    }
}

impl ShapeSource for Shape {
    type Loop = IndexedPolyline;

    open spec fn ccw_loops(&self) -> Seq<IndexedPolyline> {
        self.ccw_plines@
    }

    open spec fn cw_loops(&self) -> Seq<IndexedPolyline> {
        self.cw_plines@
    }

    fn ccw_loop_count(&self) -> (n: usize) {
        self.ccw_plines.len()
    }

    fn cw_loop_count(&self) -> (n: usize) {
        self.cw_plines.len()
    }

    fn get_loop(&self, i: usize) -> (found: &IndexedPolyline) {
        if i < self.ccw_plines.len() {
            &self.ccw_plines[i]
        } else {
            &self.cw_plines[i - self.ccw_plines.len()]
        }
    }
}

} // verus!
