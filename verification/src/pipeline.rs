//! The offset of a shape as a run of four stages. Between two stages the geometry
//! answers what the stage before asked: the raw offsets of each input loop, the
//! intersections of each pair of offset loops, the slice made of each candidate with
//! its probes, and the loop traced along each chain of slices.

use crate::assemble::assemble;
use crate::assemble::candidate_loops;
use crate::assemble::whole_in_range;
use crate::assemble::with_sign;
use crate::dissect::all_on_loop;
use crate::dissect::candidates_of;
use crate::dissect::dissection_points;
use crate::dissect::gathered;
use crate::dissect::probe_targets;
use crate::dissect::slice_candidates;
use crate::dissect::slices_upto;
use crate::dissect::sort_out;
use crate::dissect::sorted_along;
use crate::dissect::targets_upto;
use crate::dissect::whole_upto;
use crate::dissect::DissectionPoint;
use crate::dissect::ProbedSlice;
use crate::dissect::SliceCandidate;
use crate::intersects::collect_slice_points;
use crate::intersects::found_fits;
use crate::intersects::set_views;
use crate::intersects::sets_of;
use crate::intersects::PairIntersects;
use crate::intersects::SlicePoints;
use crate::offsets::ccw_offsets;
use crate::offsets::create_offset_loops;
use crate::offsets::cw_offsets;
use crate::offsets::offset_bounds;
use crate::offsets::offset_views;
use crate::offsets::raw_wf;
use crate::offsets::OffsetLoops;
use crate::pairs::candidate_pairs;
use crate::pairs::pairs_to_intersect;
use crate::shape::AreaSign;
use crate::shape::loops_wf;
use crate::shape::IndexedPolyline;
use crate::shape::Shape;
use crate::stitch::chain_views;
use crate::stitch::chains_joined;
use crate::stitch::is_partition;
use crate::stitch::stitch_slices;
use crate::stitch::stitched;
use crate::stitch::DissectedSlice;
use vstd::prelude::*;

verus! {

/// Why a run was given up.
#[derive(Clone, Copy, Debug, PartialEq, Eq, Structural)]
pub enum OffsetError {
    /// The answers do not match what was asked: there is not one answer for each
    /// question, or an answer names another pair of loops than the question.
    AnswerMismatch,
    /// An intersection names a segment that its loop does not have, or lies off the
    /// grid.
    InconsistentIntersects,
}

/// The run after the raw offsets are sorted: it asks for the intersections of
/// each pair in `pairs`.
pub struct PairStage {
    pub offsets: OffsetLoops,
    /// The number of loops of the input shape.
    pub input_loop_count: usize,
    pub pairs: Vec<(usize, usize)>,
}

/// How one offset loop is dissected, and what is asked about it.
pub struct LoopSlicing {
    /// The points at which the loop is cut, in order along the loop.
    pub points: Vec<DissectionPoint>,
    /// The slices that may be cut from the loop.
    pub candidates: Vec<SliceCandidate>,
    /// The input loops against which each slice of the loop is probed.
    pub probe_targets: Vec<usize>,
}

/// The run after the offset loops are dissected: it asks, for each candidate of each
/// loop in `slicing`, for the slice made of it and for its probes.
pub struct SliceStage {
    pub offsets: OffsetLoops,
    pub slice_points: SlicePoints,
    pub slicing: Vec<LoopSlicing>,
}

/// The run after the surviving slices are stitched: it asks for the loop traced along
/// each chain in `chains`.
pub struct StitchStage {
    pub offsets: OffsetLoops,
    /// The offset loops that enter the result whole.
    pub whole_loops: Vec<usize>,
    /// The slices that survived.
    pub slices: Vec<DissectedSlice>,
    /// The chains of slices, each slice named by its position in `slices`.
    pub chains: Vec<Vec<usize>>,
}

/// Whether there is one answer for each pair, under the loops of the pair.
pub open spec fn answers_pairs(pairs: Seq<(usize, usize)>, found: Seq<PairIntersects>) -> bool {
    &&& found.len() == pairs.len()
    &&& forall|k: int|
        0 <= k < pairs.len() ==> (#[trigger] found[k]).loop_idx1 == pairs[k].0 && found[k].loop_idx2
            == pairs[k].1
}

/// Whether there is one outcome for each candidate of each loop.
pub open spec fn answers_candidates(
    slicing: Seq<LoopSlicing>,
    outcomes: Seq<Vec<Option<ProbedSlice>>>,
) -> bool {
    &&& outcomes.len() == slicing.len()
    &&& forall|i: int|
        0 <= i < slicing.len() ==> (#[trigger] outcomes[i])@.len() == slicing[i].candidates@.len()
}

/// Each loop that stayed whole is one of the first `count` loops.
pub proof fn lemma_whole_upto_range(
    lookup: Seq<Vec<usize>>,
    outcomes: Seq<Vec<Option<ProbedSlice>>>,
    count: nat,
)
    requires
        count <= usize::MAX,
    ensures
        forall|k: int|
            0 <= k < whole_upto(lookup, outcomes, count).len() ==> (#[trigger] whole_upto(
                lookup,
                outcomes,
                count,
            )[k]) < count,
    decreases count,
{
    if count > 0 {
        lemma_whole_upto_range(lookup, outcomes, (count - 1) as nat);
        let front = whole_upto(lookup, outcomes, (count - 1) as nat);
        assert forall|k: int| 0 <= k < whole_upto(lookup, outcomes, count).len() implies (
        #[trigger] whole_upto(lookup, outcomes, count)[k]) < count by {
            if k < front.len() {
                assert(whole_upto(lookup, outcomes, count)[k] == front[k]);
            }
        }
    }
}

impl PairStage {
    /// The pairs are those that the offset loops ask for.
    pub open spec fn wf(&self) -> bool {
        &&& self.offsets.wf()
        &&& self.pairs@ == pairs_to_intersect(offset_bounds(offset_views(self.offsets.loops@)))
    }

    /// Takes the intersections of the pairs and dissects each offset loop.
    ///
    /// `found` holds the answer for each pair of `self.pairs`, in order. The run is
    /// given up with `AnswerMismatch` when it does not, and with
    /// `InconsistentIntersects` when an answer does not fit the loops of its pair.
    /// Otherwise each offset loop gets its dissection points, in order along the loop,
    /// the slices that may be cut from it, and the input loops to probe them against.
    pub fn intersected(self, found: &Vec<PairIntersects>) -> (next: Result<SliceStage, OffsetError>)
        requires
            self.wf(),
        ensures
            next.is_ok() <==> answers_pairs(self.pairs@, found@) && found_fits(
                offset_views(self.offsets.loops@),
                found@,
            ),
            next == Err::<SliceStage, OffsetError>(OffsetError::AnswerMismatch) <==> !answers_pairs(
                self.pairs@,
                found@,
            ),
            next matches Ok(stage) ==> {
                &&& stage.wf()
                &&& stage.offsets == self.offsets
                &&& set_views(stage.slice_points.sets@) == sets_of(found@)
                &&& stage.asks(self.input_loop_count)
            },
    {
        if found.len() != self.pairs.len() {
            return Err(OffsetError::AnswerMismatch);
        }
        let mut k: usize = 0;
        while k < found.len()
            invariant
                k <= found.len(),
                found.len() == self.pairs.len(),
                forall|q: int|
                    0 <= q < k ==> (#[trigger] found@[q]).loop_idx1 == self.pairs@[q].0
                        && found@[q].loop_idx2 == self.pairs@[q].1,
            decreases found.len() - k,
        {
            if found[k].loop_idx1 != self.pairs[k].0 || found[k].loop_idx2 != self.pairs[k].1 {
                return Err(OffsetError::AnswerMismatch);
            }
            k += 1;
        }
        let slice_points = match collect_slice_points(&self.offsets, found) {
            Some(points) => points,
            None => {
                return Err(OffsetError::InconsistentIntersects);
            },
        };
        let count: usize = self.offsets.len();
        let mut slicing: Vec<LoopSlicing> = Vec::new();
        let mut i: usize = 0;
        while i < count
            invariant
                i <= count,
                count == self.offsets.loops@.len(),
                self.offsets.wf(),
                slice_points.wf(offset_views(self.offsets.loops@)),
                slicing.len() == i,
                forall|q: int|
                    0 <= q < i ==> slicing_fits(
                        self.offsets,
                        slice_points,
                        self.input_loop_count,
                        q,
                        #[trigger] slicing@[q],
                    ),
            decreases count - i,
        {
            let points = dissection_points(&self.offsets, &slice_points, i);
            let candidates = slice_candidates(&points);
            let targets = probe_targets(self.offsets.loops[i].parent_loop_idx, self.input_loop_count);
            slicing.push(LoopSlicing { points, candidates, probe_targets: targets });
            i += 1;
        }
        Ok(SliceStage { offsets: self.offsets, slice_points, slicing })
    }
}

/// Whether `slicing` is how loop `i` of `offsets` is dissected at `slice_points`:
/// its points are the slice points of the sets that the loop takes part in, in order
/// along the loop; its candidates are the slices between them; its probe targets are
/// all input loops but the parent of the loop.
pub open spec fn slicing_fits(
    offsets: OffsetLoops,
    slice_points: SlicePoints,
    input_loop_count: usize,
    i: int,
    slicing: LoopSlicing,
) -> bool {
    let vertices = offsets.loops@[i].indexed_pline.polyline.vertices@;
    &&& sorted_along(vertices, slicing.points@)
    &&& all_on_loop(vertices, slicing.points@)
    &&& slicing.points@.to_multiset() == gathered(
        set_views(slice_points.sets@),
        slice_points.lookup@[i]@,
        i as usize,
    ).to_multiset()
    &&& slicing.candidates@ == candidates_of(slicing.points@)
    &&& slicing.probe_targets@ == targets_upto(
        offsets.loops@[i].parent_loop_idx,
        input_loop_count as nat,
    )
}

impl SliceStage {
    /// The slice points fit the offset loops, and each loop has its slicing.
    pub open spec fn wf(&self) -> bool {
        &&& self.offsets.wf()
        &&& self.slice_points.wf(offset_views(self.offsets.loops@))
        &&& self.slicing@.len() == self.offsets.loops@.len()
    }

    /// What the stage asks about each loop is how the loop is dissected.
    pub open spec fn asks(&self, input_loop_count: usize) -> bool {
        forall|i: int|
            0 <= i < self.slicing@.len() ==> slicing_fits(
                self.offsets,
                self.slice_points,
                input_loop_count,
                i,
                #[trigger] self.slicing@[i],
            )
    }

    /// Takes the slices and their probes, keeps the survivors and stitches them.
    ///
    /// `outcomes` holds, for each offset loop and each of its candidates in order, the
    /// slice made of the candidate with the answers of its probes, or nothing where no
    /// slice could be made. The run is given up with `AnswerMismatch` when there is not
    /// one outcome for each candidate.
    pub fn probed(self, outcomes: &Vec<Vec<Option<ProbedSlice>>>) -> (next: Result<
        StitchStage,
        OffsetError,
    >)
        requires
            self.wf(),
        ensures
            next.is_ok() <==> answers_candidates(self.slicing@, outcomes@),
            next matches Err(e) ==> e == OffsetError::AnswerMismatch,
            next matches Ok(stage) ==> {
                &&& stage.wf()
                &&& stage.offsets == self.offsets
                &&& stage.whole_loops@ == whole_upto(
                    self.slice_points.lookup@,
                    outcomes@,
                    outcomes@.len(),
                )
                &&& stage.slices@ == slices_upto(
                    self.slice_points.lookup@,
                    outcomes@,
                    outcomes@.len(),
                )
            },
    {
        if outcomes.len() != self.slicing.len() {
            return Err(OffsetError::AnswerMismatch);
        }
        let mut i: usize = 0;
        while i < outcomes.len()
            invariant
                i <= outcomes.len(),
                outcomes.len() == self.slicing.len(),
                forall|q: int|
                    0 <= q < i ==> (#[trigger] outcomes@[q])@.len() == self.slicing@[q].candidates@.len(),
            decreases outcomes.len() - i,
        {
            if outcomes[i].len() != self.slicing[i].candidates.len() {
                return Err(OffsetError::AnswerMismatch);
            }
            i += 1;
        }
        let left = sort_out(&self.slice_points, outcomes);
        let chains = stitch_slices(&left.slices);
        proof {
            lemma_whole_upto_range(self.slice_points.lookup@, outcomes@, outcomes@.len());
        }
        Ok(
            StitchStage {
                offsets: self.offsets,
                whole_loops: left.whole_loops,
                slices: left.slices,
                chains,
            },
        )
    }
}

impl StitchStage {
    /// The whole loops are offset loops, and the chains are the slices stitched: each
    /// slice stands in exactly one chain, and in a chain each slice starts where the
    /// slice before it ends.
    pub open spec fn wf(&self) -> bool {
        &&& self.offsets.wf()
        &&& whole_in_range(offset_views(self.offsets.loops@), self.whole_loops@)
        &&& chain_views(self.chains@) == stitched(self.slices@)
        &&& is_partition(chain_views(self.chains@), self.slices@.len())
        &&& chains_joined(self.slices@, chain_views(self.chains@))
    }

    /// Takes the loops traced along the chains and assembles the result.
    ///
    /// `traced` holds the loop of each chain of `self.chains`, in order. The run is
    /// given up with `AnswerMismatch` when it does not. Otherwise the result is the
    /// shape of the offset loops that stayed whole and of the traced loops, sorted by
    /// the sign of their area, or nothing when no loop is left.
    pub fn traced(self, traced: &Vec<IndexedPolyline>) -> (done: Result<Option<Shape>, OffsetError>)
        requires
            self.wf(),
            loops_wf(traced@),
        ensures
            done.is_ok() <==> traced@.len() == self.chains@.len(),
            done matches Err(e) ==> e == OffsetError::AnswerMismatch,
            done matches Ok(made) ==> {
                let candidates = candidate_loops(
                    offset_views(self.offsets.loops@),
                    self.whole_loops@,
                    traced@,
                );
                &&& made.is_none() <==> with_sign(candidates, AreaSign::Positive).len() + with_sign(
                    candidates,
                    AreaSign::Negative,
                ).len() == 0
                &&& made matches Some(shape) ==> {
                    &&& shape@.ccw_plines == with_sign(candidates, AreaSign::Positive)
                    &&& shape@.cw_plines == with_sign(candidates, AreaSign::Negative)
                    &&& shape@.wf()
                    &&& shape@.oriented()
                }
            },
    {
        if traced.len() != self.chains.len() {
            return Err(OffsetError::AnswerMismatch);
        }
        Ok(assemble(&self.offsets, &self.whole_loops, traced))
    }
}

impl Shape {
    /// The number of loops of the shape.
    pub open spec fn loop_count(&self) -> nat {
        self.ccw_plines@.len() + self.cw_plines@.len()
    }

    /// Starts the offset of the shape from the raw offsets of its loops.
    ///
    /// `raw` holds, for each loop of the shape, counter clockwise loops first, what
    /// offsetting that loop alone gave. The run is given up with `AnswerMismatch` when
    /// it does not hold one entry for each loop. The result is nothing when no raw
    /// offset is kept: the shape has vanished. Otherwise the next stage holds the
    /// offset loops and asks for the intersections of those pairs of them whose
    /// bounds overlap.
    pub fn parallel_offset(&self, raw: &Vec<Vec<IndexedPolyline>>) -> (next: Result<
        Option<PairStage>,
        OffsetError,
    >)
        requires
            raw_wf(raw@),
        ensures
            next.is_ok() <==> raw@.len() == self.loop_count(),
            next matches Err(e) ==> e == OffsetError::AnswerMismatch,
            next matches Ok(started) ==> {
                let ccw = ccw_offsets(raw@, self.ccw_plines.len());
                let cw = cw_offsets(raw@, self.ccw_plines.len());
                &&& started.is_none() <==> ccw.len() + cw.len() == 0
                &&& started matches Some(stage) ==> {
                    &&& stage.wf()
                    &&& offset_views(stage.offsets.loops@) == ccw + cw
                    &&& stage.offsets.ccw_count == ccw.len()
                    &&& stage.input_loop_count == raw@.len()
                }
            },
    {
        let ccw_count: usize = self.ccw_plines.len();
        let cw_count: usize = self.cw_plines.len();
        if raw.len() < ccw_count || raw.len() - ccw_count != cw_count {
            return Err(OffsetError::AnswerMismatch);
        }
        match create_offset_loops(raw, ccw_count) {
            None => Ok(None),
            Some(offsets) => {
                let pairs = candidate_pairs(&offsets);
                Ok(Some(PairStage { offsets, input_loop_count: raw.len(), pairs }))
            },
        }
    }
}

} // verus!
