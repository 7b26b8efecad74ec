//! Which pairs of offset loops have to be intersected.

use crate::geometry::Aabb;
use crate::offsets::offset_bounds;
use crate::offsets::offset_views;
use crate::offsets::OffsetLoops;
use crate::spatial::build_index;
use crate::spatial::index_boxes;
use crate::spatial::index_query;
use crate::spatial::is_query_answer;
use crate::spatial::query_hits;
use vstd::prelude::*;

verus! {

/// The pairs that are visited from hit `k` of loop `i` on, after `emitted`. Loop after
/// loop, the index over `boxes` is asked for the loops whose box overlaps the loop's
/// own; a hit is passed over when it is the loop itself or when the pair was visited
/// from the other side.
pub open spec fn pairs_from(boxes: Seq<Aabb>, i: int, k: int, emitted: Seq<(usize, usize)>) -> Seq<
    (usize, usize),
>
    decreases boxes.len() - i, query_hits(boxes, boxes[i]).len() - k,
{
    if i < 0 || i >= boxes.len() {
        emitted
    } else {
        let hits = query_hits(boxes, boxes[i]);
        if k < 0 || k >= hits.len() {
            pairs_from(boxes, i + 1, 0, emitted)
        } else if hits[k] == i || emitted.contains((hits[k], i as usize)) {
            pairs_from(boxes, i, k + 1, emitted)
        } else {
            pairs_from(boxes, i, k + 1, emitted.push((i as usize, hits[k])))
        }
    }
}

/// The pairs of loops to intersect, in the order in which they are visited.
pub open spec fn pairs_to_intersect(boxes: Seq<Aabb>) -> Seq<(usize, usize)> {
    pairs_from(boxes, 0, 0, Seq::empty())
}

/// Every pair names a lower and a higher position whose boxes overlap, and the lower
/// one is below `i`, or is `i` with the higher one among the first `k` hits.
pub open spec fn pairs_sound(
    boxes: Seq<Aabb>,
    pairs: Seq<(usize, usize)>,
    i: int,
    hits: Seq<usize>,
    k: int,
) -> bool {
    forall|p: int|
        0 <= p < pairs.len() ==> {
            &&& (#[trigger] pairs[p]).0 < pairs[p].1
            &&& pairs[p].1 < boxes.len()
            &&& boxes[pairs[p].0 as int].overlaps(boxes[pairs[p].1 as int])
            &&& (pairs[p].0 < i || (pairs[p].0 == i && exists|q: int|
                0 <= q < k && #[trigger] hits[q] == pairs[p].1))
        }
}

/// Every pair names a lower position below `i` and a higher position, and their boxes
/// overlap.
pub open spec fn pairs_below(boxes: Seq<Aabb>, pairs: Seq<(usize, usize)>, i: int) -> bool {
    forall|p: int|
        0 <= p < pairs.len() ==> {
            &&& (#[trigger] pairs[p]).0 < pairs[p].1
            &&& pairs[p].1 < boxes.len()
            &&& boxes[pairs[p].0 as int].overlaps(boxes[pairs[p].1 as int])
            &&& pairs[p].0 < i
        }
}

/// Every pair of overlapping boxes whose lower position is below `i` is among `pairs`.
pub open spec fn pairs_complete(boxes: Seq<Aabb>, pairs: Seq<(usize, usize)>, i: int) -> bool {
    forall|a: usize, b: usize|
        a < i && a < b && b < boxes.len() && boxes[a as int].overlaps(boxes[b as int])
            ==> #[trigger] pairs.contains((a, b))
}

/// The pairs of offset loops that have to be intersected, in the order in which they
/// are visited: for each loop in order, the loops that an index over the bounds of all
/// offset loops reports for the loop's own bounds, in the order of the report, less
/// the loop itself and the loops with which it was paired before.
///
/// Each pair of distinct loops with overlapping bounds is visited exactly once, from
/// its lower position.
pub fn candidate_pairs(offsets: &OffsetLoops) -> (pairs: Vec<(usize, usize)>)
    requires
        offsets.wf(),
    ensures
        pairs@ == pairs_to_intersect(offset_bounds(offset_views(offsets.loops@))),
        pairs@.no_duplicates(),
        forall|i: usize, j: usize| #[trigger]
            pairs@.contains((i, j)) <==> i < j && j < offsets.loops@.len() && offset_bounds(
                offset_views(offsets.loops@),
            )[i as int].overlaps(offset_bounds(offset_views(offsets.loops@))[j as int]),
{
    let boxes = offsets.bounds();
    let index = build_index(&boxes);
    let n: usize = boxes.len();
    let mut pairs: Vec<(usize, usize)> = Vec::new();
    let mut stack: Vec<usize> = Vec::new();
    let mut i: usize = 0;
    while i < n
        invariant
            index_boxes(index) == boxes@,
            n == boxes.len(),
            i <= n,
            pairs_to_intersect(boxes@) == pairs_from(boxes@, i as int, 0, pairs@),
            pairs@.no_duplicates(),
            pairs_below(boxes@, pairs@, i as int),
            pairs_complete(boxes@, pairs@, i as int),
        decreases n - i,
    {
        let hits = index_query(&index, boxes[i], &mut stack);
        let mut k: usize = 0;
        while k < hits.len()
            invariant
                n == boxes.len(),
                i < n,
                k <= hits.len(),
                hits@ == query_hits(boxes@, boxes@[i as int]),
                is_query_answer(boxes@, boxes@[i as int], hits@),
                pairs_to_intersect(boxes@) == pairs_from(boxes@, i as int, k as int, pairs@),
                pairs@.no_duplicates(),
                pairs_sound(boxes@, pairs@, i as int, hits@, k as int),
                pairs_complete(boxes@, pairs@, i as int),
                forall|q: int|
                    0 <= q < k && (#[trigger] hits@[q]) > i ==> pairs@.contains((i, hits@[q])),
            decreases hits.len() - k,
        {
            let j: usize = hits[k];
            let ghost before = pairs@;
            assert(j < n && boxes@[j as int].overlaps(boxes@[i as int]));
            if j > i {
                proof {
                    if before.contains((j, i)) {
                        let p = choose|p: int| 0 <= p < before.len() && before[p] == (j, i);
                        assert(before[p].0 < before[p].1);
                    }
                    if before.contains((i, j)) {
                        let p = choose|p: int| 0 <= p < before.len() && before[p] == (i, j);
                        let q = choose|q: int| 0 <= q < k && #[trigger] hits@[q] == before[p].1;
                        assert(hits@[q] == hits@[k as int]);
                    }
                }
                pairs.push((i, j));
                proof {
                    assert forall|a: int, b: int|
                        0 <= a < pairs@.len() && 0 <= b < pairs@.len() && a != b implies pairs@[a]
                        != pairs@[b] by {
                        if a < before.len() && b < before.len() {
                        } else if a < before.len() {
                            assert(before[a] == before[a]);
                        } else {
                            assert(before[b] == before[b]);
                        }
                    }
                    assert forall|p: int| 0 <= p < pairs@.len() implies {
                        &&& (#[trigger] pairs@[p]).0 < pairs@[p].1
                        &&& pairs@[p].1 < boxes@.len()
                        &&& boxes@[pairs@[p].0 as int].overlaps(boxes@[pairs@[p].1 as int])
                        &&& (pairs@[p].0 < i || (pairs@[p].0 == i && exists|q: int|
                            0 <= q < k + 1 && #[trigger] hits@[q] == pairs@[p].1))
                    } by {
                        if p < before.len() {
                            assert(pairs@[p] == before[p]);
                            if before[p].0 == i {
                                let q = choose|q: int|
                                    0 <= q < k && #[trigger] hits@[q] == before[p].1;
                                assert(0 <= q < k + 1 && hits@[q] == pairs@[p].1);
                            }
                        } else {
                            assert(hits@[k as int] == pairs@[p].1);
                        }
                    }
                    assert forall|a: usize, b: usize|
                        a < i && a < b && b < boxes@.len() && boxes@[a as int].overlaps(
                            boxes@[b as int],
                        ) implies #[trigger] pairs@.contains((a, b)) by {
                        assert(before.contains((a, b)));
                        let p = choose|p: int| 0 <= p < before.len() && before[p] == (a, b);
                        assert(pairs@[p] == (a, b));
                    }
                    assert forall|q: int| 0 <= q < k + 1 && (#[trigger] hits@[q]) > i implies pairs@.contains(
                        (i, hits@[q]),
                    ) by {
                        if q < k {
                            assert(before.contains((i, hits@[q])));
                            let p = choose|p: int|
                                0 <= p < before.len() && before[p] == (i, hits@[q]);
                            assert(pairs@[p] == (i, hits@[q]));
                        } else {
                            assert(pairs@[before.len() as int] == (i, hits@[q]));
                        }
                    }
                }
            } else {
                proof {
                    if j < i {
                        assert(before.contains((j, i)));
                    }
                    assert forall|p: int| 0 <= p < pairs@.len() implies {
                        &&& (#[trigger] pairs@[p]).0 < pairs@[p].1
                        &&& pairs@[p].1 < boxes@.len()
                        &&& boxes@[pairs@[p].0 as int].overlaps(boxes@[pairs@[p].1 as int])
                        &&& (pairs@[p].0 < i || (pairs@[p].0 == i && exists|q: int|
                            0 <= q < k + 1 && #[trigger] hits@[q] == pairs@[p].1))
                    } by {
                        if pairs@[p].0 == i {
                            let q = choose|q: int| 0 <= q < k && #[trigger] hits@[q] == pairs@[p].1;
                            assert(0 <= q < k + 1 && hits@[q] == pairs@[p].1);
                        }
                    }
                }
            }
            k += 1;
        }
        proof {
            assert forall|a: usize, b: usize|
                a < i + 1 && a < b && b < boxes@.len() && boxes@[a as int].overlaps(
                    boxes@[b as int],
                ) implies #[trigger] pairs@.contains((a, b)) by {
                if a == i {
                    assert(boxes@[b as int].overlaps(boxes@[i as int]));
                    assert(hits@.contains(b));
                    let q = choose|q: int| 0 <= q < hits@.len() && hits@[q] == b;
                    assert(hits@[q] > i);
                }
            }
        }
        i += 1;
    }
    proof {
        let all = offset_bounds(offset_views(offsets.loops@));
        assert forall|a: usize, b: usize| #[trigger]
            pairs@.contains((a, b)) <==> a < b && b < offsets.loops@.len() && all[a as int].overlaps(
                all[b as int],
            ) by {
            if pairs@.contains((a, b)) {
                let p = choose|p: int| 0 <= p < pairs@.len() && pairs@[p] == (a, b);
                assert(pairs@[p].0 < pairs@[p].1);
            }
        }
    }
    pairs
}

} // verus!
