//! Where each offset loop is dissected, the slices that may come of it, and which of
//! them survive.

use crate::geometry::dist_squared;
use crate::geometry::Point;
use crate::intersects::lemma_lookup_of;
use crate::intersects::lookup_of;
use crate::intersects::point_fits;
use crate::intersects::points_fit;
use crate::intersects::set_views;
use crate::intersects::BasicIntersect;
use crate::intersects::SlicePointSetView;
use crate::intersects::SlicePoints;
use crate::offsets::offset_views;
use crate::offsets::OffsetLoops;
use crate::stitch::DissectedSlice;
use vstd::prelude::*;
use vstd::seq_lib::to_multiset_build;
use vstd::seq_lib::to_multiset_insert;

verus! {

/// A point at which an offset loop is cut.
#[derive(Clone, Copy, Debug, PartialEq, Eq, Structural)]
pub struct DissectionPoint {
    /// The segment that holds the point, named by its start vertex.
    pub seg_idx: usize,
    pub pos: Point,
}

/// A slice that may be cut from an offset loop.
#[derive(Clone, Copy, Debug, PartialEq, Eq, Structural)]
pub enum SliceCandidate {
    /// The loop as a whole.
    EntireLoop,
    /// The part of the loop from one dissection point to the next.
    Between { start: DissectionPoint, end: DissectionPoint },
}

/// A slice as the geometry made it, and what probing it against the input loops gave.
pub struct ProbedSlice {
    /// The caller's key, carried along to the slice that is kept.
    pub key: usize,
    pub start_point: Point,
    pub end_point: Point,
    /// For each input loop but the parent of the offset loop, whether the probe point of
    /// the slice keeps the offset distance from it.
    pub probes: Vec<bool>,
}

/// What is left of the offset loops once the slices are probed.
pub struct Survivors {
    /// The offset loops that no other loop cuts and that passed the probe: each of them
    /// is a loop of the result as it is.
    pub whole_loops: Vec<usize>,
    /// The slices that passed the probe, to be stitched.
    pub slices: Vec<DissectedSlice>,
}

/// A slice point of `set` as a point on loop `loop_idx`: under the segment of the
/// first loop of the set when that is the loop, else under that of the second.
pub open spec fn dissection_point(point: BasicIntersect, set: SlicePointSetView, loop_idx: usize) -> DissectionPoint {
    DissectionPoint {
        seg_idx: if set.loop_idx1 == loop_idx {
            point.start_index1
        } else {
            point.start_index2
        },
        pos: point.point,
    }
}

/// The slice points of `set` as points on loop `loop_idx`, in order.
pub open spec fn points_of_set(set: SlicePointSetView, loop_idx: usize) -> Seq<DissectionPoint> {
    Seq::new(set.slice_points.len(), |k: int| dissection_point(set.slice_points[k], set, loop_idx))
}

/// The points on loop `loop_idx` of the sets that `row` names, set after set.
pub open spec fn gathered(sets: Seq<SlicePointSetView>, row: Seq<usize>, loop_idx: usize) -> Seq<
    DissectionPoint,
>
    decreases row.len(),
{
    if row.len() == 0 {
        Seq::empty()
    } else {
        gathered(sets, row.drop_last(), loop_idx) + points_of_set(sets[row.last() as int], loop_idx)
    }
}

/// The square of the distance of `p` from the start of its segment.
pub open spec fn along(vertices: Seq<Point>, p: DissectionPoint) -> int {
    dist_squared(p.pos, vertices[p.seg_idx as int])
}

/// Whether `p` comes no later than `q` along the loop: on an earlier segment, or on the
/// same segment and no farther from its start.
pub open spec fn comes_before(vertices: Seq<Point>, p: DissectionPoint, q: DissectionPoint) -> bool {
    p.seg_idx < q.seg_idx || (p.seg_idx == q.seg_idx && along(vertices, p) <= along(vertices, q))
}

/// Whether `points` are in order along the loop.
pub open spec fn sorted_along(vertices: Seq<Point>, points: Seq<DissectionPoint>) -> bool {
    forall|a: int, b: int|
        0 <= a < b < points.len() ==> comes_before(vertices, #[trigger] points[a], #[trigger] points[b])
}

/// Whether `p` names a segment of the loop and lies on the grid.
pub open spec fn on_loop(vertices: Seq<Point>, p: DissectionPoint) -> bool {
    p.seg_idx < vertices.len() && p.pos.in_range()
}

/// Whether each of `points` names a segment of the loop and lies on the grid.
pub open spec fn all_on_loop(vertices: Seq<Point>, points: Seq<DissectionPoint>) -> bool {
    forall|k: int| 0 <= k < points.len() ==> on_loop(vertices, #[trigger] points[k])
}

/// Whether every vertex lies on the grid.
pub open spec fn all_in_range(vertices: Seq<Point>) -> bool {
    forall|i: int| 0 <= i < vertices.len() ==> (#[trigger] vertices[i]).in_range()
}

/// The slices that may be cut from a loop with dissection points `points`, which are
/// in order along the loop. A loop with no point or with one point stays whole: a
/// single touch does not dissect. With more points there is a slice from each point
/// to the next, and last the slice from the last point round to the first.
pub open spec fn candidates_of(points: Seq<DissectionPoint>) -> Seq<SliceCandidate> {
    if points.len() <= 1 {
        seq![SliceCandidate::EntireLoop]
    } else {
        Seq::new(
            points.len(),
            |k: int|
                SliceCandidate::Between {
                    start: points[k],
                    end: if k + 1 < points.len() {
                        points[k + 1]
                    } else {
                        points[0]
                    },
                },
        )
    }
}

/// The positions below `count` but `parent`, ascending.
pub open spec fn targets_upto(parent: usize, count: nat) -> Seq<usize>
    decreases count,
{
    if count == 0 {
        Seq::empty()
    } else if count - 1 == parent {
        targets_upto(parent, (count - 1) as nat)
    } else {
        targets_upto(parent, (count - 1) as nat).push((count - 1) as usize)
    }
}

/// Whether every probe was passed.
pub open spec fn all_clear(probes: Seq<bool>) -> bool {
    forall|k: int| 0 <= k < probes.len() ==> #[trigger] probes[k]
}

/// Whether a slice was made and passed every probe.
pub open spec fn survives(outcome: Option<ProbedSlice>) -> bool {
    outcome matches Some(probed) && all_clear(probed.probes@)
}

/// The slices of loop `source_idx` that survive, in order.
pub open spec fn kept_slices(source_idx: usize, outcomes: Seq<Option<ProbedSlice>>) -> Seq<DissectedSlice>
    decreases outcomes.len(),
{
    if outcomes.len() == 0 {
        Seq::empty()
    } else if survives(outcomes.last()) {
        kept_slices(source_idx, outcomes.drop_last()).push(
            DissectedSlice {
                source_idx,
                key: outcomes.last().unwrap().key,
                start_point: outcomes.last().unwrap().start_point,
                end_point: outcomes.last().unwrap().end_point,
            },
        )
    } else {
        kept_slices(source_idx, outcomes.drop_last())
    }
}

/// Among the first `count` loops, those that take part in no slice point set and whose
/// one candidate, the whole loop, survives; ascending.
pub open spec fn whole_upto(
    lookup: Seq<Vec<usize>>,
    outcomes: Seq<Vec<Option<ProbedSlice>>>,
    count: nat,
) -> Seq<usize>
    decreases count,
{
    if count == 0 {
        Seq::empty()
    } else {
        let front = whole_upto(lookup, outcomes, (count - 1) as nat);
        if lookup[count - 1]@.len() == 0 && outcomes[count - 1]@.len() > 0 && survives(
            outcomes[count - 1]@[0],
        ) {
            front.push((count - 1) as usize)
        } else {
            front
        }
    }
}

/// The surviving slices of those among the first `count` loops that take part in a
/// slice point set, loop after loop.
pub open spec fn slices_upto(
    lookup: Seq<Vec<usize>>,
    outcomes: Seq<Vec<Option<ProbedSlice>>>,
    count: nat,
) -> Seq<DissectedSlice>
    decreases count,
{
    if count == 0 {
        Seq::empty()
    } else {
        let front = slices_upto(lookup, outcomes, (count - 1) as nat);
        if lookup[count - 1]@.len() == 0 {
            front
        } else {
            front + kept_slices((count - 1) as usize, outcomes[count - 1]@)
        }
    }
}

/// Whether `p` comes no later than `q` along the loop.
fn precedes(vertices: &Vec<Point>, p: &DissectionPoint, q: &DissectionPoint) -> (r: bool)
    requires
        all_in_range(vertices@),
        on_loop(vertices@, *p),
        on_loop(vertices@, *q),
    ensures
        r == comes_before(vertices@, *p, *q),
{
    if p.seg_idx != q.seg_idx {
        p.seg_idx < q.seg_idx
    } else {
        let start = vertices[p.seg_idx];
        p.pos.dist_squared_to(start) <= q.pos.dist_squared_to(start)
    }
}

/// Puts `p` into `sorted` behind the points that come no later than it.
fn insert_sorted(sorted: &mut Vec<DissectionPoint>, vertices: &Vec<Point>, p: DissectionPoint)
    requires
        all_in_range(vertices@),
        all_on_loop(vertices@, old(sorted)@),
        sorted_along(vertices@, old(sorted)@),
        on_loop(vertices@, p),
    ensures
        all_on_loop(vertices@, final(sorted)@),
        sorted_along(vertices@, final(sorted)@),
        final(sorted)@.to_multiset() == old(sorted)@.to_multiset().insert(p),
{
    let mut at: usize = 0;
    while at < sorted.len() && precedes(vertices, &sorted[at], &p)
        invariant
            at <= sorted.len(),
            sorted@ == old(sorted)@,
            all_in_range(vertices@),
            all_on_loop(vertices@, sorted@),
            on_loop(vertices@, p),
            forall|a: int| 0 <= a < at ==> comes_before(vertices@, #[trigger] sorted@[a], p),
        decreases sorted.len() - at,
    {
        at += 1;
    }
    let ghost before = sorted@;
    sorted.insert(at, p);
    proof {
        to_multiset_insert(before, at as int, p);
        assert forall|a: int, b: int| 0 <= a < b < sorted@.len() implies comes_before(
            vertices@,
            #[trigger] sorted@[a],
            #[trigger] sorted@[b],
        ) by {
            let low = if a < at {
                before[a]
            } else {
                p
            };
            let high = if b > at {
                before[b - 1]
            } else {
                p
            };
            assert(sorted@[a] == low || (a > at && sorted@[a] == before[a - 1]));
            assert(sorted@[b] == high || (b < at && sorted@[b] == before[b]));
            if at < before.len() {
                assert(!comes_before(vertices@, before[at as int], p));
                if b > at + 1 {
                    assert(comes_before(vertices@, before[at as int], before[b - 1]));
                }
            }
        }
        assert forall|k: int| 0 <= k < sorted@.len() implies on_loop(vertices@, #[trigger] sorted@[k]) by {
            if k < at {
                assert(sorted@[k] == before[k]);
            } else if k > at {
                assert(sorted@[k] == before[k - 1]);
            }
        }
    }
}

/// The points at which offset loop `loop_idx` is cut, in order along the loop: first
/// by segment, then on one segment by the distance from its start. They are the slice
/// points of every set that the loop takes part in.
pub fn dissection_points(offsets: &OffsetLoops, slice_points: &SlicePoints, loop_idx: usize) -> (points:
    Vec<DissectionPoint>)
    requires
        offsets.wf(),
        slice_points.wf(offset_views(offsets.loops@)),
        loop_idx < offsets.loops@.len(),
    ensures
        sorted_along(offsets.loops@[loop_idx as int].indexed_pline.polyline.vertices@, points@),
        all_on_loop(offsets.loops@[loop_idx as int].indexed_pline.polyline.vertices@, points@),
        points@.to_multiset() == gathered(
            set_views(slice_points.sets@),
            slice_points.lookup@[loop_idx as int]@,
            loop_idx,
        ).to_multiset(),
{
    let ghost views = offset_views(offsets.loops@);
    let ghost sets = set_views(slice_points.sets@);
    let vertices = &offsets.loops[loop_idx].indexed_pline.polyline.vertices;
    let row = &slice_points.lookup[loop_idx];
    let mut points: Vec<DissectionPoint> = Vec::new();
    let ghost mut so_far: Seq<DissectionPoint> = Seq::empty();
    let mut r: usize = 0;
    proof {
        assert(views[loop_idx as int].indexed_pline.wf());
        assert(views[loop_idx as int].indexed_pline.polyline.wf());
        assert(all_in_range(vertices@));
        assert(sets.len() == slice_points.sets.len());
        lemma_lookup_of(sets, loop_idx);
        assert(row@ == lookup_of(sets, loop_idx));
        assert(row@.take(0).len() == 0);
    }
    while r < row.len()
        invariant
            r <= row.len(),
            views == offset_views(offsets.loops@),
            sets == set_views(slice_points.sets@),
            loop_idx < views.len(),
            slice_points.wf(views),
            vertices@ == views[loop_idx as int].indexed_pline.polyline.vertices,
            all_in_range(vertices@),
            forall|k: int|
                0 <= k < row@.len() ==> (#[trigger] row@[k]) < sets.len() && (sets[row@[k] as int].loop_idx1
                    == loop_idx || sets[row@[k] as int].loop_idx2 == loop_idx),
            so_far == gathered(sets, row@.take(r as int), loop_idx),
            points@.to_multiset() == so_far.to_multiset(),
            sorted_along(vertices@, points@),
            all_on_loop(vertices@, points@),
        decreases row.len() - r,
    {
        let s: usize = row[r];
        let set = &slice_points.sets[s];
        let ghost set_view = sets[s as int];
        let ghost of_set = points_of_set(set_view, loop_idx);
        let ghost start = so_far;
        let first_of_pair: bool = set.loop_idx1 == loop_idx;
        let mut k: usize = 0;
        proof {
            assert(set_view == set@);
            assert(points_fit(views, set_view.loop_idx1, set_view.loop_idx2, set_view.slice_points));
            assert(so_far == start + of_set.take(0));
        }
        while k < set.slice_points.len()
            invariant
                k <= set.slice_points.len(),
                set_view == set@,
                of_set == points_of_set(set_view, loop_idx),
                first_of_pair == (set_view.loop_idx1 == loop_idx),
                set_view.loop_idx1 == loop_idx || set_view.loop_idx2 == loop_idx,
                loop_idx < views.len(),
                points_fit(views, set_view.loop_idx1, set_view.loop_idx2, set_view.slice_points),
                vertices@ == views[loop_idx as int].indexed_pline.polyline.vertices,
                all_in_range(vertices@),
                so_far == start + of_set.take(k as int),
                points@.to_multiset() == so_far.to_multiset(),
                sorted_along(vertices@, points@),
                all_on_loop(vertices@, points@),
            decreases set.slice_points.len() - k,
        {
            let hit = set.slice_points[k];
            let p = DissectionPoint {
                seg_idx: if first_of_pair {
                    hit.start_index1
                } else {
                    hit.start_index2
                },
                pos: hit.point,
            };
            proof {
                assert(p == of_set[k as int]);
                assert(point_fits(
                    set_view.slice_points[k as int],
                    views[set_view.loop_idx1 as int],
                    views[set_view.loop_idx2 as int],
                ));
                to_multiset_build(so_far, p);
                assert(start + of_set.take(k + 1) == so_far.push(p));
                so_far = so_far.push(p);
            }
            insert_sorted(&mut points, vertices, p);
            k += 1;
        }
        proof {
            assert(of_set.take(k as int) == of_set);
            assert(row@.take(r + 1).drop_last() == row@.take(r as int));
            assert(row@.take(r + 1).last() == s);
        }
        r += 1;
    }
    assert(row@.take(r as int) == row@);
    points
}

/// The slices that may be cut from a loop with dissection points `points`, which are
/// in order along the loop.
pub fn slice_candidates(points: &Vec<DissectionPoint>) -> (candidates: Vec<SliceCandidate>)
    ensures
        candidates@ == candidates_of(points@),
{
    let mut candidates: Vec<SliceCandidate> = Vec::new();
    if points.len() <= 1 {
        candidates.push(SliceCandidate::EntireLoop);
        assert(candidates@ == seq![SliceCandidate::EntireLoop]);
        return candidates;
    }
    let mut k: usize = 0;
    while k < points.len()
        invariant
            k <= points.len(),
            points.len() > 1,
            candidates@ == candidates_of(points@).take(k as int),
        decreases points.len() - k,
    {
        let end = if k + 1 < points.len() {
            points[k + 1]
        } else {
            points[0]
        };
        candidates.push(SliceCandidate::Between { start: points[k], end });
        assert(candidates@ == candidates_of(points@).take(k + 1));
        k += 1;
    }
    assert(candidates_of(points@).take(k as int) == candidates_of(points@));
    candidates
}

/// The input loops against which a slice of an offset of input loop `parent_loop_idx`
/// is probed: every input loop but its parent, which is never too close to its own
/// offset.
pub fn probe_targets(parent_loop_idx: usize, input_loop_count: usize) -> (targets: Vec<usize>)
    ensures
        targets@ == targets_upto(parent_loop_idx, input_loop_count as nat),
{
    let mut targets: Vec<usize> = Vec::new();
    let mut i: usize = 0;
    while i < input_loop_count
        invariant
            i <= input_loop_count,
            targets@ == targets_upto(parent_loop_idx, i as nat),
        decreases input_loop_count - i,
    {
        if i != parent_loop_idx {
            targets.push(i);
        }
        i += 1;
    }
    targets
}

/// Whether a slice passed every probe.
pub fn is_slice_valid(probes: &Vec<bool>) -> (valid: bool)
    ensures
        valid == all_clear(probes@),
{
    let mut k: usize = 0;
    while k < probes.len()
        invariant
            k <= probes.len(),
            forall|q: int| 0 <= q < k ==> #[trigger] probes@[q],
        decreases probes.len() - k,
    {
        if !probes[k] {
            return false;
        }
        k += 1;
    }
    true
}

/// Appends to `slices` the slices of loop `source_idx` that survive.
fn push_kept_slices(slices: &mut Vec<DissectedSlice>, source_idx: usize, outcomes: &Vec<Option<ProbedSlice>>)
    ensures
        final(slices)@ == old(slices)@ + kept_slices(source_idx, outcomes@),
{
    let mut k: usize = 0;
    assert(outcomes@.take(0).len() == 0);
    assert(slices@ == old(slices)@ + kept_slices(source_idx, outcomes@.take(0)));
    while k < outcomes.len()
        invariant
            k <= outcomes.len(),
            slices@ == old(slices)@ + kept_slices(source_idx, outcomes@.take(k as int)),
        decreases outcomes.len() - k,
    {
        assert(outcomes@.take(k + 1).drop_last() == outcomes@.take(k as int));
        assert(outcomes@.take(k + 1).last() == outcomes@[k as int]);
        match &outcomes[k] {
            Some(probed) => {
                if is_slice_valid(&probed.probes) {
                    let ghost before = slices@;
                    let kept = DissectedSlice {
                        source_idx,
                        key: probed.key,
                        start_point: probed.start_point,
                        end_point: probed.end_point,
                    };
                    slices.push(kept);
                    assert(old(slices)@ + kept_slices(source_idx, outcomes@.take(k as int)).push(kept)
                        == before.push(kept));
                }
            },
            None => {},
        }
        k += 1;
    }
    assert(outcomes@.take(k as int) == outcomes@);
}

/// Sorts out what is left of the offset loops. `outcomes` holds, for each offset loop
/// and each of its slice candidates in order, the slice that the geometry made of the
/// candidate with the answers of its probes, or nothing where the geometry declined
/// to make a slice.
///
/// A slice survives when it was made and passed every probe. A loop that takes
/// part in no slice point set has one candidate, the loop as a whole: when that
/// survives, the loop is a loop of the result. The surviving slices of the other loops
/// are to be stitched.
pub fn sort_out(slice_points: &SlicePoints, outcomes: &Vec<Vec<Option<ProbedSlice>>>) -> (left: Survivors)
    requires
        outcomes@.len() == slice_points.lookup@.len(),
    ensures
        left.whole_loops@ == whole_upto(slice_points.lookup@, outcomes@, outcomes@.len()),
        left.slices@ == slices_upto(slice_points.lookup@, outcomes@, outcomes@.len()),
{
    let mut whole_loops: Vec<usize> = Vec::new();
    let mut slices: Vec<DissectedSlice> = Vec::new();
    let mut i: usize = 0;
    while i < outcomes.len()
        invariant
            i <= outcomes.len(),
            outcomes@.len() == slice_points.lookup@.len(),
            whole_loops@ == whole_upto(slice_points.lookup@, outcomes@, i as nat),
            slices@ == slices_upto(slice_points.lookup@, outcomes@, i as nat),
        decreases outcomes.len() - i,
    {
        if slice_points.lookup[i].len() == 0 {
            if outcomes[i].len() > 0 {
                let whole_survives = match &outcomes[i][0] {
                    Some(probed) => is_slice_valid(&probed.probes),
                    None => false,
                };
                if whole_survives {
                    whole_loops.push(i);
                }
            }
        } else {
            push_kept_slices(&mut slices, i, &outcomes[i]);
        }
        i += 1;
    }
    Survivors { whole_loops, slices }
}

} // verus!
