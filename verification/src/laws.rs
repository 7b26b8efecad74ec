//! What holds of the stages taken together.

use crate::assemble::candidate_loops;
use crate::assemble::whole_views;
use crate::assemble::with_sign;
use crate::dissect::kept_slices;
use crate::dissect::slices_upto;
use crate::dissect::survives;
use crate::dissect::whole_upto;
use crate::dissect::ProbedSlice;
use crate::geometry::lemma_around_overlaps;
use crate::geometry::SLICE_JOIN_EPS;
use crate::offsets::ccw_inputs;
use crate::offsets::ccw_offsets;
use crate::offsets::cw_offsets;
use crate::offsets::kept;
use crate::offsets::kept_between;
use crate::offsets::oriented_between;
use crate::offsets::raw_wf;
use crate::shape::AreaSign;
use crate::shape::IndexedPolyline;
use crate::shape::IndexedPolylineView;
use crate::shape::OffsetLoopView;
use crate::stitch::chain_joined;
use crate::stitch::DissectedSlice;
use vstd::prelude::*;

verus! {

/// The positions below `count`, ascending.
pub open spec fn all_positions(count: nat) -> Seq<usize> {
    Seq::new(count, |i: int| i as usize)
}

/// The one raw offset of each input loop from position `lo` up to `hi`, each as an
/// offset loop of its input loop.
pub open spec fn single_offsets(raw: Seq<Vec<IndexedPolyline>>, lo: int, hi: int) -> Seq<OffsetLoopView> {
    Seq::new(
        (hi - lo) as nat,
        |k: int| OffsetLoopView { parent_loop_idx: (lo + k) as usize, indexed_pline: raw[lo + k]@[0]@ },
    )
}

/// A loop of the result has the orientation of its list, and whatever holds of every
/// candidate holds of it: a result loop is a candidate, taken as it is.
pub proof fn lemma_result_loops_are_candidates(
    loops: Seq<IndexedPolylineView>,
    sign: AreaSign,
    holds: spec_fn(IndexedPolylineView) -> bool,
)
    requires
        forall|i: int| 0 <= i < loops.len() ==> holds(#[trigger] loops[i]),
    ensures
        forall|k: int|
            0 <= k < with_sign(loops, sign).len() ==> holds(#[trigger] with_sign(loops, sign)[k])
                && with_sign(loops, sign)[k].polyline.area == sign,
    decreases loops.len(),
{
    if loops.len() > 0 {
        lemma_result_loops_are_candidates(loops.drop_last(), sign, holds);
        let front = with_sign(loops.drop_last(), sign);
        assert forall|k: int| 0 <= k < with_sign(loops, sign).len() implies holds(
            #[trigger] with_sign(loops, sign)[k],
        ) && with_sign(loops, sign)[k].polyline.area == sign by {
            if k < front.len() {
                assert(with_sign(loops, sign)[k] == front[k]);
            } else {
                assert(with_sign(loops, sign)[k] == loops[loops.len() - 1]);
            }
        }
    }
}

/// Whether `slice` is a surviving outcome of loop `source_idx`.
pub open spec fn made_of_survivor(
    source_idx: usize,
    outcomes: Seq<Option<ProbedSlice>>,
    slice: DissectedSlice,
) -> bool {
    exists|j: int|
        0 <= j < outcomes.len() && survives(#[trigger] outcomes[j]) && slice == (DissectedSlice {
            source_idx,
            key: outcomes[j].unwrap().key,
            start_point: outcomes[j].unwrap().start_point,
            end_point: outcomes[j].unwrap().end_point,
        })
}

/// Every slice that is kept was made and passed every probe.
pub proof fn lemma_kept_slices_survive(source_idx: usize, outcomes: Seq<Option<ProbedSlice>>)
    ensures
        forall|k: int|
            0 <= k < kept_slices(source_idx, outcomes).len() ==> made_of_survivor(
                source_idx,
                outcomes,
                #[trigger] kept_slices(source_idx, outcomes)[k],
            ),
    decreases outcomes.len(),
{
    if outcomes.len() > 0 {
        let front = outcomes.drop_last();
        lemma_kept_slices_survive(source_idx, front);
        assert forall|k: int| 0 <= k < kept_slices(source_idx, outcomes).len() implies made_of_survivor(
            source_idx,
            outcomes,
            #[trigger] kept_slices(source_idx, outcomes)[k],
        ) by {
            let slice = kept_slices(source_idx, outcomes)[k];
            if k < kept_slices(source_idx, front).len() {
                assert(slice == kept_slices(source_idx, front)[k]);
                assert(made_of_survivor(source_idx, front, slice));
                let j = choose|j: int|
                    0 <= j < front.len() && survives(#[trigger] front[j]) && slice == (DissectedSlice {
                        source_idx,
                        key: front[j].unwrap().key,
                        start_point: front[j].unwrap().start_point,
                        end_point: front[j].unwrap().end_point,
                    });
                assert(outcomes[j] == front[j]);
            } else {
                let j = outcomes.len() - 1;
                assert(survives(outcomes[j]));
            }
        }
    }
}

/// In a chain of slices on the grid, each slice starts within twice the join reach of
/// the end of the slice before it, along each axis.
pub proof fn lemma_joined_slices_are_close(slices: Seq<DissectedSlice>, chain: Seq<usize>, k: int)
    requires
        chain_joined(slices, chain),
        0 <= k < chain.len() - 1,
        slices[chain[k] as int].end_point.in_range(),
        slices[chain[k + 1] as int].start_point.in_range(),
    ensures
        slices[chain[k + 1] as int].start_point.within(
            slices[chain[k] as int].end_point,
            2 * SLICE_JOIN_EPS,
        ),
{
    lemma_around_overlaps(
        slices[chain[k + 1] as int].start_point,
        slices[chain[k] as int].end_point,
        SLICE_JOIN_EPS as int,
        SLICE_JOIN_EPS as int,
    );
}

/// Where no raw offset has area of sign `sign`, none is kept.
pub proof fn lemma_kept_none(raw: Seq<IndexedPolyline>, parent: usize, sign: AreaSign)
    requires
        forall|j: int| 0 <= j < raw.len() ==> (#[trigger] raw[j])@.polyline.area != sign,
    ensures
        kept(raw, parent, sign).len() == 0,
    decreases raw.len(),
{
    if raw.len() > 0 {
        assert(raw.last() == raw[raw.len() - 1]);
        lemma_kept_none(raw.drop_last(), parent, sign);
    }
}

/// Where no raw offset of the input loops from `lo` up to `hi` has area of sign `sign`,
/// none is kept.
pub proof fn lemma_kept_between_none(raw: Seq<Vec<IndexedPolyline>>, lo: int, hi: int, sign: AreaSign)
    requires
        forall|i: int, j: int|
            lo <= i < hi && 0 <= i < raw.len() && 0 <= j < raw[i]@.len() ==> (#[trigger] raw[i]@[j])@.polyline.area
                != sign,
    ensures
        kept_between(raw, lo, hi, sign).len() == 0,
    decreases hi - lo,
{
    if !(hi <= lo || lo < 0 || hi > raw.len()) {
        lemma_kept_between_none(raw, lo, hi - 1, sign);
        assert forall|j: int| 0 <= j < raw[hi - 1]@.len() implies (#[trigger] raw[hi - 1]@[j])@.polyline.area
            != sign by {}
        lemma_kept_none(raw[hi - 1]@, (hi - 1) as usize, sign);
    }
}

/// A shape of counter clockwise loops alone vanishes when no raw offset has positive
/// area: when each has collapsed or turned inside out, as beyond the inradius of a
/// convex loop.
pub proof fn lemma_collapsed_offsets_vanish(raw: Seq<Vec<IndexedPolyline>>, ccw_input_count: usize)
    requires
        ccw_input_count >= raw.len(),
        forall|i: int, j: int|
            0 <= i < raw.len() && 0 <= j < raw[i]@.len() ==> (#[trigger] raw[i]@[j])@.polyline.area
                != AreaSign::Positive,
    ensures
        ccw_offsets(raw, ccw_input_count).len() + cw_offsets(raw, ccw_input_count).len() == 0,
{
    let n = raw.len() as int;
    assert(ccw_inputs(raw.len(), ccw_input_count) == n);
    lemma_kept_between_none(raw, 0, n, AreaSign::Positive);
}

/// Where each input loop from `lo` up to `hi` has one raw offset, and that of area of
/// sign `sign`, each is kept under `sign`, and none under another sign.
pub proof fn lemma_kept_between_singles(
    raw: Seq<Vec<IndexedPolyline>>,
    lo: int,
    hi: int,
    sign: AreaSign,
    other: AreaSign,
)
    requires
        0 <= lo <= hi <= raw.len(),
        other != sign,
        forall|i: int|
            lo <= i < hi ==> (#[trigger] raw[i])@.len() == 1 && raw[i]@[0]@.polyline.area == sign,
    ensures
        kept_between(raw, lo, hi, sign) == single_offsets(raw, lo, hi),
        kept_between(raw, lo, hi, other).len() == 0,
    decreases hi - lo,
{
    if lo < hi {
        lemma_kept_between_singles(raw, lo, hi - 1, sign, other);
        let last = raw[hi - 1]@;
        assert(last.len() == 1 && last[0]@.polyline.area == sign);
        assert(last.drop_last().len() == 0);
        assert(kept(last.drop_last(), (hi - 1) as usize, sign).len() == 0);
        assert(kept(last.drop_last(), (hi - 1) as usize, other).len() == 0);
        assert(last.last() == last[0]);
        assert(kept(last, (hi - 1) as usize, sign) == seq![
            OffsetLoopView { parent_loop_idx: (hi - 1) as usize, indexed_pline: last[0]@ },
        ]);
        assert(kept_between(raw, lo, hi, sign) == single_offsets(raw, lo, hi));
    } else {
        assert(kept_between(raw, lo, hi, sign) == single_offsets(raw, lo, hi));
    }
}

/// Where offsetting gave for each input loop one loop of the same orientation, the
/// offset loops are those loops, each under its input loop and in the order of the
/// input loops.
pub proof fn lemma_offsets_of_single_loops(raw: Seq<Vec<IndexedPolyline>>, ccw_input_count: usize)
    requires
        ccw_input_count <= raw.len(),
        forall|i: int|
            0 <= i < ccw_input_count ==> (#[trigger] raw[i])@.len() == 1 && raw[i]@[0]@.polyline.area
                == AreaSign::Positive,
        forall|i: int|
            ccw_input_count <= i < raw.len() ==> (#[trigger] raw[i])@.len() == 1
                && raw[i]@[0]@.polyline.area == AreaSign::Negative,
    ensures
        ccw_offsets(raw, ccw_input_count) + cw_offsets(raw, ccw_input_count) == single_offsets(
            raw,
            0,
            raw.len() as int,
        ),
        ccw_offsets(raw, ccw_input_count).len() == ccw_input_count,
{
    let c = ccw_input_count as int;
    let n = raw.len() as int;
    lemma_kept_between_singles(raw, 0, c, AreaSign::Positive, AreaSign::Negative);
    lemma_kept_between_singles(raw, c, n, AreaSign::Negative, AreaSign::Positive);
    assert(ccw_offsets(raw, ccw_input_count) == single_offsets(raw, 0, c));
    assert(single_offsets(raw, 0, c) + single_offsets(raw, c, n) == single_offsets(raw, 0, n));
}

/// Where no offset loop takes part in a slice point set and each loop as a whole
/// survives, every offset loop enters the result whole and nothing is stitched.
pub proof fn lemma_uncut_loops_stay_whole(
    lookup: Seq<Vec<usize>>,
    outcomes: Seq<Vec<Option<ProbedSlice>>>,
    count: nat,
)
    requires
        count <= usize::MAX,
        forall|i: int|
            0 <= i < count ==> (#[trigger] lookup[i])@.len() == 0 && outcomes[i]@.len() > 0
                && survives(outcomes[i]@[0]),
    ensures
        whole_upto(lookup, outcomes, count) == all_positions(count),
        slices_upto(lookup, outcomes, count).len() == 0,
    decreases count,
{
    if count > 0 {
        lemma_uncut_loops_stay_whole(lookup, outcomes, (count - 1) as nat);
        assert(lookup[count - 1]@.len() == 0);
        assert(all_positions((count - 1) as nat).push((count - 1) as usize) == all_positions(count));
    } else {
        assert(whole_upto(lookup, outcomes, count) == all_positions(count));
    }
}

/// The first `n` offset loops as candidates.
pub open spec fn first_loops(offsets: Seq<OffsetLoopView>, n: int) -> Seq<IndexedPolylineView> {
    Seq::new(n as nat, |i: int| offsets[i].indexed_pline)
}

/// Among the first `n` offset loops, the counter clockwise ones are those below
/// `ccw_count` and the clockwise ones are the others.
pub proof fn lemma_first_loops_by_sign(offsets: Seq<OffsetLoopView>, ccw_count: int, n: int)
    requires
        0 <= ccw_count <= offsets.len(),
        0 <= n <= offsets.len(),
        oriented_between(offsets, 0, ccw_count, AreaSign::Positive),
        oriented_between(offsets, ccw_count, offsets.len() as int, AreaSign::Negative),
    ensures
        with_sign(first_loops(offsets, n), AreaSign::Positive) == first_loops(
            offsets,
            if n <= ccw_count {
                n
            } else {
                ccw_count
            },
        ),
        with_sign(first_loops(offsets, n), AreaSign::Negative) == Seq::new(
            (if n <= ccw_count {
                0
            } else {
                n - ccw_count
            }) as nat,
            |i: int| offsets[ccw_count + i].indexed_pline,
        ),
    decreases n,
{
    let all = first_loops(offsets, n);
    if n > 0 {
        lemma_first_loops_by_sign(offsets, ccw_count, n - 1);
        assert(all.drop_last() == first_loops(offsets, n - 1));
        assert(all.last() == offsets[n - 1].indexed_pline);
        if n <= ccw_count {
            assert(offsets[n - 1].indexed_pline.polyline.area == AreaSign::Positive);
            assert(first_loops(offsets, n - 1).push(all.last()) == first_loops(offsets, n));
        } else {
            assert(offsets[n - 1].indexed_pline.polyline.area == AreaSign::Negative);
            let before = Seq::new(
                (if n - 1 <= ccw_count {
                    0
                } else {
                    n - 1 - ccw_count
                }) as nat,
                |i: int| offsets[ccw_count + i].indexed_pline,
            );
            assert(before.push(all.last()) == Seq::new(
                (n - ccw_count) as nat,
                |i: int| offsets[ccw_count + i].indexed_pline,
            ));
        }
    } else {
        assert(with_sign(all, AreaSign::Positive) == first_loops(offsets, 0));
        assert(with_sign(all, AreaSign::Negative) == Seq::new(
            0nat,
            |i: int| offsets[ccw_count + i].indexed_pline,
        ));
    }
}

/// Where every offset loop enters the result whole and nothing was stitched, the
/// result holds exactly the offset loops: the counter clockwise ones as its boundary
/// loops, the clockwise ones as its hole loops, each kind in its order.
pub proof fn lemma_whole_loops_make_the_result(offsets: Seq<OffsetLoopView>, ccw_count: int)
    requires
        0 <= ccw_count <= offsets.len() <= usize::MAX,
        oriented_between(offsets, 0, ccw_count, AreaSign::Positive),
        oriented_between(offsets, ccw_count, offsets.len() as int, AreaSign::Negative),
    ensures
        with_sign(
            candidate_loops(offsets, all_positions(offsets.len()), Seq::empty()),
            AreaSign::Positive,
        ) == first_loops(offsets, ccw_count),
        with_sign(
            candidate_loops(offsets, all_positions(offsets.len()), Seq::empty()),
            AreaSign::Negative,
        ) == Seq::new(
            (offsets.len() - ccw_count) as nat,
            |i: int| offsets[ccw_count + i].indexed_pline,
        ),
{
    let n = offsets.len() as int;
    let candidates = candidate_loops(offsets, all_positions(offsets.len()), Seq::empty());
    assert(whole_views(offsets, all_positions(offsets.len())) == first_loops(offsets, n));
    assert(candidates == first_loops(offsets, n));
    lemma_first_loops_by_sign(offsets, ccw_count, n);
}

/// Where offsetting gave for each input loop one loop of the same orientation, and
/// each of these loops enters the result whole, the result holds exactly these loops,
/// in the order of the input loops. So an offset by nothing, which gives each loop
/// back, gives the shape back; and a single counter clockwise loop whose offset is one
/// counter clockwise loop has that loop for its result.
pub proof fn lemma_single_offsets_make_the_result(raw: Seq<Vec<IndexedPolyline>>, ccw_input_count: usize)
    requires
        raw_wf(raw),
        ccw_input_count <= raw.len() <= usize::MAX,
        forall|i: int|
            0 <= i < ccw_input_count ==> (#[trigger] raw[i])@.len() == 1 && raw[i]@[0]@.polyline.area
                == AreaSign::Positive,
        forall|i: int|
            ccw_input_count <= i < raw.len() ==> (#[trigger] raw[i])@.len() == 1
                && raw[i]@[0]@.polyline.area == AreaSign::Negative,
    ensures
        ({
            let offsets = ccw_offsets(raw, ccw_input_count) + cw_offsets(raw, ccw_input_count);
            let candidates = candidate_loops(offsets, all_positions(offsets.len()), Seq::empty());
            &&& offsets.len() == raw.len()
            &&& with_sign(candidates, AreaSign::Positive) == Seq::new(
                ccw_input_count as nat,
                |i: int| raw[i]@[0]@,
            )
            &&& with_sign(candidates, AreaSign::Negative) == Seq::new(
                (raw.len() - ccw_input_count) as nat,
                |i: int| raw[ccw_input_count + i]@[0]@,
            )
        }),
{
    let c = ccw_input_count as int;
    let offsets = ccw_offsets(raw, ccw_input_count) + cw_offsets(raw, ccw_input_count);
    lemma_offsets_of_single_loops(raw, ccw_input_count);
    assert forall|i: int| 0 <= i < offsets.len() implies (#[trigger] offsets[i]).indexed_pline.wf()
        && offsets[i].indexed_pline.polyline.area == (if i < c {
        AreaSign::Positive
    } else {
        AreaSign::Negative
    }) by {
        assert(raw[i]@.len() == 1);
        assert(raw[i]@[0]@.wf());
    }
    lemma_whole_loops_make_the_result(offsets, c);
    assert(first_loops(offsets, c) == Seq::new(c as nat, |i: int| raw[i]@[0]@));
    assert(Seq::new((offsets.len() - c) as nat, |i: int| offsets[c + i].indexed_pline) == Seq::new(
        (raw.len() - c) as nat,
        |i: int| raw[c + i]@[0]@,
    ));
}

} // verus!
