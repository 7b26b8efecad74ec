//! The points at which pairs of offset loops meet, gathered into slice point sets.

use crate::geometry::Point;
use crate::offsets::offset_views;
use crate::offsets::OffsetLoops;
use crate::shape::OffsetLoopView;
use vstd::prelude::*;

verus! {

/// A point at which two offset loops cross or touch.
#[derive(Clone, Copy, Debug, PartialEq, Eq, Structural)]
pub struct BasicIntersect {
    /// The segment of the first loop that holds the point, named by its start vertex.
    pub start_index1: usize,
    /// The segment of the second loop that holds the point, named by its start vertex.
    pub start_index2: usize,
    pub point: Point,
}

/// A stretch along which two offset loops run on top of each other.
#[derive(Clone, Copy, Debug, PartialEq, Eq, Structural)]
pub struct OverlappingIntersect {
    pub start_index1: usize,
    pub start_index2: usize,
    /// Where the stretch starts.
    pub point1: Point,
    /// Where the stretch ends.
    pub point2: Point,
}

/// What intersecting one pair of offset loops gave.
pub struct PairIntersects {
    pub loop_idx1: usize,
    pub loop_idx2: usize,
    pub basic_intersects: Vec<BasicIntersect>,
    pub overlapping_intersects: Vec<OverlappingIntersect>,
}

/// The points at which one pair of offset loops is cut.
pub struct SlicePointSet {
    pub loop_idx1: usize,
    pub loop_idx2: usize,
    pub slice_points: Vec<BasicIntersect>,
}

/// The value of a `SlicePointSet`.
pub ghost struct SlicePointSetView {
    pub loop_idx1: usize,
    pub loop_idx2: usize,
    pub slice_points: Seq<BasicIntersect>,
}

impl View for SlicePointSet {
    type V = SlicePointSetView;

    open spec fn view(&self) -> SlicePointSetView {
        SlicePointSetView {
            loop_idx1: self.loop_idx1,
            loop_idx2: self.loop_idx2,
            slice_points: self.slice_points@,
        }
    }
}

/// All slice point sets, and for each offset loop the positions of the sets that it
/// takes part in, ascending.
pub struct SlicePoints {
    pub sets: Vec<SlicePointSet>,
    pub lookup: Vec<Vec<usize>>,
}

/// The values of `sets`, in order.
pub open spec fn set_views(sets: Seq<SlicePointSet>) -> Seq<SlicePointSetView> {
    Seq::new(sets.len(), |i: int| sets[i]@)
}

/// The two ends of each stretch, start before end, stretch after stretch. Both ends
/// carry the segments of the stretch.
pub open spec fn overlap_ends(overlaps: Seq<OverlappingIntersect>) -> Seq<BasicIntersect>
    decreases overlaps.len(),
{
    if overlaps.len() == 0 {
        Seq::empty()
    } else {
        let o = overlaps.last();
        overlap_ends(overlaps.drop_last()).push(
            BasicIntersect {
                start_index1: o.start_index1,
                start_index2: o.start_index2,
                point: o.point1,
            },
        ).push(
            BasicIntersect {
                start_index1: o.start_index1,
                start_index2: o.start_index2,
                point: o.point2,
            },
        )
    }
}

/// The slice points of one pair: the crossings as they are, then the ends of the
/// stretches.
pub open spec fn pair_points(found: PairIntersects) -> Seq<BasicIntersect> {
    found.basic_intersects@ + overlap_ends(found.overlapping_intersects@)
}

/// A set for each pair that has slice points, in the order of the pairs.
pub open spec fn sets_of(found: Seq<PairIntersects>) -> Seq<SlicePointSetView>
    decreases found.len(),
{
    if found.len() == 0 {
        Seq::empty()
    } else if pair_points(found.last()).len() == 0 {
        sets_of(found.drop_last())
    } else {
        sets_of(found.drop_last()).push(
            SlicePointSetView {
                loop_idx1: found.last().loop_idx1,
                loop_idx2: found.last().loop_idx2,
                slice_points: pair_points(found.last()),
            },
        )
    }
}

/// The positions of the sets that loop `loop_idx` takes part in, ascending.
pub open spec fn lookup_of(sets: Seq<SlicePointSetView>, loop_idx: usize) -> Seq<usize>
    decreases sets.len(),
{
    if sets.len() == 0 {
        Seq::empty()
    } else {
        let front = lookup_of(sets.drop_last(), loop_idx);
        let at = (sets.len() - 1) as usize;
        let first = if sets.last().loop_idx1 == loop_idx {
            front.push(at)
        } else {
            front
        };
        if sets.last().loop_idx2 == loop_idx {
            first.push(at)
        } else {
            first
        }
    }
}

/// Whether `point` names a segment of each of the two loops and lies on the grid.
pub open spec fn point_fits(point: BasicIntersect, first: OffsetLoopView, second: OffsetLoopView) -> bool {
    &&& point.start_index1 < first.indexed_pline.polyline.vertices.len()
    &&& point.start_index2 < second.indexed_pline.polyline.vertices.len()
    &&& point.point.in_range()
}

/// Whether `points` belong to the pair of distinct loops at `loop_idx1` and
/// `loop_idx2`, the lower position first.
pub open spec fn points_fit(
    offsets: Seq<OffsetLoopView>,
    loop_idx1: usize,
    loop_idx2: usize,
    points: Seq<BasicIntersect>,
) -> bool {
    &&& loop_idx1 < loop_idx2
    &&& loop_idx2 < offsets.len()
    &&& forall|k: int|
        0 <= k < points.len() ==> point_fits(
            #[trigger] points[k],
            offsets[loop_idx1 as int],
            offsets[loop_idx2 as int],
        )
}

/// Whether each entry of `found` belongs to a pair of `offsets`.
pub open spec fn found_fits(offsets: Seq<OffsetLoopView>, found: Seq<PairIntersects>) -> bool {
    forall|f: int|
        0 <= f < found.len() ==> points_fit(
            offsets,
            (#[trigger] found[f]).loop_idx1,
            found[f].loop_idx2,
            pair_points(found[f]),
        )
}

impl SlicePoints {
    /// Each set belongs to a pair of `offsets`, and the lookup of each loop names the
    /// sets that the loop takes part in.
    pub open spec fn wf(&self, offsets: Seq<OffsetLoopView>) -> bool {
        &&& self.lookup@.len() == offsets.len()
        &&& forall|s: int|
            0 <= s < self.sets@.len() ==> points_fit(
                offsets,
                (#[trigger] self.sets@[s]).loop_idx1,
                self.sets@[s].loop_idx2,
                self.sets@[s].slice_points@,
            )
        &&& forall|l: int|
            0 <= l < self.lookup@.len() ==> (#[trigger] self.lookup@[l])@ == lookup_of(
                set_views(self.sets@),
                l as usize,
            )
    }
}

/// Each entry of a lookup names a set that the loop takes part in.
pub proof fn lemma_lookup_of(sets: Seq<SlicePointSetView>, loop_idx: usize)
    requires
        sets.len() <= usize::MAX,
    ensures
        forall|k: int|
            0 <= k < lookup_of(sets, loop_idx).len() ==> {
                let s = #[trigger] lookup_of(sets, loop_idx)[k];
                s < sets.len() && (sets[s as int].loop_idx1 == loop_idx || sets[s as int].loop_idx2
                    == loop_idx)
            },
    decreases sets.len(),
{
    if sets.len() > 0 {
        lemma_lookup_of(sets.drop_last(), loop_idx);
        let front = lookup_of(sets.drop_last(), loop_idx);
        let at = (sets.len() - 1) as usize;
        let first = if sets.last().loop_idx1 == loop_idx {
            front.push(at)
        } else {
            front
        };
        assert forall|k: int| 0 <= k < lookup_of(sets, loop_idx).len() implies {
            let s = #[trigger] lookup_of(sets, loop_idx)[k];
            s < sets.len() && (sets[s as int].loop_idx1 == loop_idx || sets[s as int].loop_idx2
                == loop_idx)
        } by {
            if k < front.len() {
                let s = front[k];
                assert(first[k] == s);
                assert(lookup_of(sets, loop_idx)[k] == s);
                assert(sets.drop_last()[s as int] == sets[s as int]);
            } else {
                assert(lookup_of(sets, loop_idx)[k] == at);
                assert(sets[at as int] == sets.last());
            }
        }
    }
}

/// The slice points of one pair, or nothing when a point does not fit the pair.
fn checked_pair_points(offsets: &OffsetLoops, found: &PairIntersects) -> (points: Option<
    Vec<BasicIntersect>,
>)
    ensures
        points.is_some() <==> points_fit(
            offset_views(offsets.loops@),
            found.loop_idx1,
            found.loop_idx2,
            pair_points(*found),
        ),
        points matches Some(p) ==> p@ == pair_points(*found),
{
    let ghost views = offset_views(offsets.loops@);
    if found.loop_idx1 >= found.loop_idx2 || found.loop_idx2 >= offsets.loops.len() {
        return None;
    }
    let count1: usize = offsets.loops[found.loop_idx1].indexed_pline.polyline.vertices.len();
    let count2: usize = offsets.loops[found.loop_idx2].indexed_pline.polyline.vertices.len();
    let ghost first = views[found.loop_idx1 as int];
    let ghost second = views[found.loop_idx2 as int];
    let mut points: Vec<BasicIntersect> = Vec::new();
    let mut k: usize = 0;
    while k < found.basic_intersects.len()
        invariant
            k <= found.basic_intersects.len(),
            points@ == found.basic_intersects@.take(k as int),
            views == offset_views(offsets.loops@),
            found.loop_idx1 < found.loop_idx2 < views.len(),
            first == views[found.loop_idx1 as int],
            second == views[found.loop_idx2 as int],
            count1 == first.indexed_pline.polyline.vertices.len(),
            count2 == second.indexed_pline.polyline.vertices.len(),
            forall|q: int| 0 <= q < points.len() ==> point_fits(#[trigger] points@[q], first, second),
        decreases found.basic_intersects.len() - k,
    {
        let p = found.basic_intersects[k];
        if p.start_index1 >= count1 || p.start_index2 >= count2 || !p.point.is_in_range() {
            proof {
                lemma_overlap_ends_len(found.overlapping_intersects@);
                assert(0 <= k < pair_points(*found).len());
                assert(pair_points(*found)[k as int] == p);
                assert(!point_fits(pair_points(*found)[k as int], first, second));
            }
            return None;
        }
        points.push(p);
        assert(points@ == found.basic_intersects@.take(k + 1));
        k += 1;
    }
    assert(found.basic_intersects@.take(k as int) == found.basic_intersects@);
    let mut o: usize = 0;
    assert(found.overlapping_intersects@.take(0).len() == 0);
    assert(points@ == found.basic_intersects@ + overlap_ends(found.overlapping_intersects@.take(0)));
    while o < found.overlapping_intersects.len()
        invariant
            o <= found.overlapping_intersects.len(),
            points@ == found.basic_intersects@ + overlap_ends(
                found.overlapping_intersects@.take(o as int),
            ),
            views == offset_views(offsets.loops@),
            found.loop_idx1 < found.loop_idx2 < views.len(),
            first == views[found.loop_idx1 as int],
            second == views[found.loop_idx2 as int],
            count1 == first.indexed_pline.polyline.vertices.len(),
            count2 == second.indexed_pline.polyline.vertices.len(),
            forall|q: int| 0 <= q < points.len() ==> point_fits(#[trigger] points@[q], first, second),
        decreases found.overlapping_intersects.len() - o,
    {
        let stretch = found.overlapping_intersects[o];
        let ghost so_far = found.overlapping_intersects@.take(o as int);
        let ghost next = found.overlapping_intersects@.take(o + 1);
        let start = BasicIntersect {
            start_index1: stretch.start_index1,
            start_index2: stretch.start_index2,
            point: stretch.point1,
        };
        let end = BasicIntersect {
            start_index1: stretch.start_index1,
            start_index2: stretch.start_index2,
            point: stretch.point2,
        };
        proof {
            assert(next.drop_last() == so_far);
            assert(next.last() == stretch);
            assert(overlap_ends(next) == overlap_ends(so_far).push(start).push(end));
            lemma_overlap_ends_prefix(found.overlapping_intersects@, o + 1);
            lemma_overlap_ends_len(so_far);
            assert(found.basic_intersects@ + overlap_ends(so_far).push(start).push(end)
                == points@.push(start).push(end));
        }
        if stretch.start_index1 >= count1 || stretch.start_index2 >= count2
            || !stretch.point1.is_in_range() || !stretch.point2.is_in_range() {
            proof {
                let all = pair_points(*found);
                let ends = overlap_ends(found.overlapping_intersects@);
                let at: int = found.basic_intersects@.len() + 2 * o;
                lemma_overlap_ends_prefix(found.overlapping_intersects@, o as int);
                assert(overlap_ends(next).len() == 2 * o + 2);
                assert(ends.take(2 * o + 2)[2 * o] == start);
                assert(ends.take(2 * o + 2)[2 * o + 1] == end);
                assert(all[at] == start);
                assert(all[at + 1] == end);
                assert(!point_fits(all[at], first, second) || !point_fits(
                    all[at + 1],
                    first,
                    second,
                ));
            }
            return None;
        }
        points.push(start);
        points.push(end);
        o += 1;
    }
    assert(found.overlapping_intersects@.take(o as int) == found.overlapping_intersects@);
    Some(points)
}

/// Each stretch has two ends.
pub proof fn lemma_overlap_ends_len(overlaps: Seq<OverlappingIntersect>)
    ensures
        overlap_ends(overlaps).len() == 2 * overlaps.len(),
    decreases overlaps.len(),
{
    if overlaps.len() > 0 {
        lemma_overlap_ends_len(overlaps.drop_last());
    }
}

/// The ends of the first `n` stretches open the ends of all stretches.
pub proof fn lemma_overlap_ends_prefix(overlaps: Seq<OverlappingIntersect>, n: int)
    requires
        0 <= n <= overlaps.len(),
    ensures
        overlap_ends(overlaps).len() == 2 * overlaps.len(),
        overlap_ends(overlaps.take(n)) == overlap_ends(overlaps).take(2 * n),
    decreases overlaps.len() - n,
{
    lemma_overlap_ends_len(overlaps);
    lemma_overlap_ends_len(overlaps.take(n));
    if n == overlaps.len() {
        assert(overlaps.take(n) == overlaps);
        assert(overlap_ends(overlaps).take(2 * n) == overlap_ends(overlaps));
    } else {
        lemma_overlap_ends_prefix(overlaps, n + 1);
        assert(overlaps.take(n + 1).drop_last() == overlaps.take(n));
        assert(overlap_ends(overlaps.take(n)) == overlap_ends(overlaps.take(n + 1)).take(2 * n));
        assert(overlap_ends(overlaps).take(2 * n + 2).take(2 * n) == overlap_ends(overlaps).take(
            2 * n,
        ));
    }
}

/// Gathers what intersecting the pairs of offset loops gave into slice point sets.
///
/// A pair without crossing and without stretch has no set. Every other pair has one,
/// in the order of `found`: it holds the crossings as they are, then for each stretch
/// its start and its end, each under the segments of the stretch. The lookup of a loop
/// lists the sets of the pairs that the loop belongs to.
///
/// There is no result when an entry of `found` does not fit `offsets`: when it does not
/// name two loops of `offsets`, the lower position first, when one of its points names
/// no segment of its loop, or when a point lies off the grid.
pub fn collect_slice_points(offsets: &OffsetLoops, found: &Vec<PairIntersects>) -> (made: Option<
    SlicePoints,
>)
    ensures
        made.is_some() <==> found_fits(offset_views(offsets.loops@), found@),
        made matches Some(points) ==> {
            &&& set_views(points.sets@) == sets_of(found@)
            &&& points.wf(offset_views(offsets.loops@))
        },
{
    let ghost views = offset_views(offsets.loops@);
    let count: usize = offsets.loops.len();
    let mut lookup: Vec<Vec<usize>> = Vec::new();
    let mut l: usize = 0;
    while l < count
        invariant
            l <= count,
            lookup.len() == l,
            forall|q: int| 0 <= q < l ==> (#[trigger] lookup@[q])@ == Seq::<usize>::empty(),
        decreases count - l,
    {
        lookup.push(Vec::new());
        l += 1;
    }
    let mut sets: Vec<SlicePointSet> = Vec::new();
    let mut f: usize = 0;
    assert(found@.take(0).len() == 0);
    assert(set_views(sets@) == sets_of(found@.take(0)));
    while f < found.len()
        invariant
            f <= found.len(),
            views == offset_views(offsets.loops@),
            count == views.len(),
            lookup.len() == count,
            set_views(sets@) == sets_of(found@.take(f as int)),
            found_fits(views, found@.take(f as int)),
            forall|s: int|
                0 <= s < sets@.len() ==> points_fit(
                    views,
                    (#[trigger] sets@[s]).loop_idx1,
                    sets@[s].loop_idx2,
                    sets@[s].slice_points@,
                ),
            forall|q: int|
                0 <= q < count ==> (#[trigger] lookup@[q])@ == lookup_of(set_views(sets@), q as usize),
        decreases found.len() - f,
    {
        let ghost so_far = found@.take(f as int);
        let ghost next = found@.take(f + 1);
        assert(next.drop_last() == so_far);
        assert(next.last() == found@[f as int]);
        let entry = &found[f];
        match checked_pair_points(offsets, entry) {
            None => {
                return None;
            },
            Some(slice_points) => {
                assert forall|q: int| 0 <= q < next.len() implies points_fit(
                    views,
                    (#[trigger] next[q]).loop_idx1,
                    next[q].loop_idx2,
                    pair_points(next[q]),
                ) by {
                    if q < f {
                        assert(next[q] == so_far[q]);
                    }
                }
                if slice_points.len() > 0 {
                    let at: usize = sets.len();
                    let ghost old_sets = set_views(sets@);
                    let ghost old_lookup = lookup@;
                    let set = SlicePointSet {
                        loop_idx1: entry.loop_idx1,
                        loop_idx2: entry.loop_idx2,
                        slice_points,
                    };
                    lookup[entry.loop_idx1].push(at);
                    lookup[entry.loop_idx2].push(at);
                    sets.push(set);
                    proof {
                        assert(set_views(sets@) == old_sets.push(set@));
                        assert(set_views(sets@).drop_last() == old_sets);
                        assert forall|q: int| 0 <= q < count implies (#[trigger] lookup@[q])@
                            == lookup_of(set_views(sets@), q as usize) by {
                            assert(old_lookup[q]@ == lookup_of(old_sets, q as usize));
                        }
                    }
                }
            },
        }
        f += 1;
    }
    assert(found@.take(f as int) == found@);
    Some(SlicePoints { sets, lookup })
}

} // verus!
