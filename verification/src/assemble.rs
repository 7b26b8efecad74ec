//! The loops of the result gathered into a shape.

use crate::offsets::offset_views;
use crate::offsets::OffsetLoops;
use crate::shape::all_oriented;
use crate::shape::loop_views;
use crate::shape::loops_wf;
use crate::shape::AreaSign;
use crate::shape::IndexedPolyline;
use crate::shape::IndexedPolylineView;
use crate::shape::OffsetLoopView;
use crate::shape::Shape;
use vstd::prelude::*;

verus! {

/// The loops among `loops` that have area of sign `sign`, in order.
pub open spec fn with_sign(loops: Seq<IndexedPolylineView>, sign: AreaSign) -> Seq<IndexedPolylineView>
    decreases loops.len(),
{
    if loops.len() == 0 {
        Seq::empty()
    } else if loops.last().polyline.area == sign {
        with_sign(loops.drop_last(), sign).push(loops.last())
    } else {
        with_sign(loops.drop_last(), sign)
    }
}

/// The offset loops that `whole` names, in the order of `whole`.
pub open spec fn whole_views(offsets: Seq<OffsetLoopView>, whole: Seq<usize>) -> Seq<IndexedPolylineView> {
    Seq::new(whole.len(), |k: int| offsets[whole[k] as int].indexed_pline)
}

/// The loops that may enter the result: the offset loops that stayed whole, then the
/// stitched loops.
pub open spec fn candidate_loops(
    offsets: Seq<OffsetLoopView>,
    whole: Seq<usize>,
    stitched: Seq<IndexedPolyline>,
) -> Seq<IndexedPolylineView> {
    whole_views(offsets, whole) + loop_views(stitched)
}

/// Every entry of `whole` names a loop of `offsets`.
pub open spec fn whole_in_range(offsets: Seq<OffsetLoopView>, whole: Seq<usize>) -> bool {
    forall|k: int| 0 <= k < whole.len() ==> (#[trigger] whole[k]) < offsets.len()
}

/// Appends a copy of `candidate` to `out` when its area has sign `sign`.
fn push_if_sign(out: &mut Vec<IndexedPolyline>, candidate: &IndexedPolyline, sign: AreaSign)
    ensures
        loop_views(final(out)@) == (if candidate@.polyline.area == sign {
            loop_views(old(out)@).push(candidate@)
        } else {
            loop_views(old(out)@)
        }),
{
    if candidate.polyline.area == sign {
        let ghost before = loop_views(out@);
        let copy = candidate.clone();
        out.push(copy);
        assert(loop_views(out@) == before.push(candidate@));
    }
}

/// Copies of the candidate loops that have area of sign `sign`, in order.
fn select_loops(
    offsets: &OffsetLoops,
    whole_loops: &Vec<usize>,
    stitched: &Vec<IndexedPolyline>,
    sign: AreaSign,
) -> (selected: Vec<IndexedPolyline>)
    requires
        offsets.wf(),
        whole_in_range(offset_views(offsets.loops@), whole_loops@),
        loops_wf(stitched@),
    ensures
        loop_views(selected@) == with_sign(
            candidate_loops(offset_views(offsets.loops@), whole_loops@, stitched@),
            sign,
        ),
        all_oriented(loop_views(selected@), sign),
{
    let ghost views = offset_views(offsets.loops@);
    let ghost whole = whole_views(views, whole_loops@);
    let mut selected: Vec<IndexedPolyline> = Vec::new();
    let mut k: usize = 0;
    assert(whole.take(0).len() == 0);
    assert(loop_views(selected@) == with_sign(whole.take(0), sign));
    while k < whole_loops.len()
        invariant
            k <= whole_loops.len(),
            offsets.wf(),
            views == offset_views(offsets.loops@),
            whole == whole_views(views, whole_loops@),
            whole_in_range(views, whole_loops@),
            loop_views(selected@) == with_sign(whole.take(k as int), sign),
            all_oriented(loop_views(selected@), sign),
        decreases whole_loops.len() - k,
    {
        let ghost before = loop_views(selected@);
        let i: usize = whole_loops[k];
        assert(whole.take(k + 1).drop_last() == whole.take(k as int));
        assert(whole.take(k + 1).last() == views[i as int].indexed_pline);
        assert(views[i as int].indexed_pline.wf());
        push_if_sign(&mut selected, &offsets.loops[i].indexed_pline, sign);
        assert forall|q: int| 0 <= q < loop_views(selected@).len() implies (#[trigger] loop_views(
            selected@,
        )[q]).wf() && loop_views(selected@)[q].polyline.area == sign by {
            if q < before.len() {
                assert(loop_views(selected@)[q] == before[q]);
            }
        }
        k += 1;
    }
    assert(whole.take(k as int) == whole);
    let ghost made = loop_views(stitched@);
    let mut j: usize = 0;
    assert(whole + made.take(0) == whole);
    while j < stitched.len()
        invariant
            j <= stitched.len(),
            made == loop_views(stitched@),
            loops_wf(stitched@),
            loop_views(selected@) == with_sign(whole + made.take(j as int), sign),
            all_oriented(loop_views(selected@), sign),
        decreases stitched.len() - j,
    {
        let ghost before = loop_views(selected@);
        assert((whole + made.take(j + 1)).drop_last() == whole + made.take(j as int));
        assert((whole + made.take(j + 1)).last() == stitched@[j as int]@);
        assert(stitched@[j as int]@.wf());
        push_if_sign(&mut selected, &stitched[j], sign);
        assert forall|q: int| 0 <= q < loop_views(selected@).len() implies (#[trigger] loop_views(
            selected@,
        )[q]).wf() && loop_views(selected@)[q].polyline.area == sign by {
            if q < before.len() {
                assert(loop_views(selected@)[q] == before[q]);
            }
        }
        j += 1;
    }
    assert(made.take(j as int) == made);
    selected
}

/// Gathers the loops of the result into a shape. The candidates are the offset loops
/// that `whole_loops` names, in that order, then the loops in `stitched`. Those of
/// positive area are the counter clockwise loops of the shape, those of negative area
/// its clockwise loops, each kind in the order of the candidates; a candidate without
/// area is dropped. The shape gets an index over the bounds of its loops. There is no
/// shape when no candidate is left.
pub fn assemble(offsets: &OffsetLoops, whole_loops: &Vec<usize>, stitched: &Vec<IndexedPolyline>) -> (made:
    Option<Shape>)
    requires
        offsets.wf(),
        whole_in_range(offset_views(offsets.loops@), whole_loops@),
        loops_wf(stitched@),
    ensures
        made.is_none() <==> with_sign(
            candidate_loops(offset_views(offsets.loops@), whole_loops@, stitched@),
            AreaSign::Positive,
        ).len() + with_sign(
            candidate_loops(offset_views(offsets.loops@), whole_loops@, stitched@),
            AreaSign::Negative,
        ).len() == 0,
        made matches Some(shape) ==> {
            &&& shape@.ccw_plines == with_sign(
                candidate_loops(offset_views(offsets.loops@), whole_loops@, stitched@),
                AreaSign::Positive,
            )
            &&& shape@.cw_plines == with_sign(
                candidate_loops(offset_views(offsets.loops@), whole_loops@, stitched@),
                AreaSign::Negative,
            )
            &&& shape@.wf()
            &&& shape@.oriented()
        },
{
    let ccw_plines = select_loops(offsets, whole_loops, stitched, AreaSign::Positive);
    let cw_plines = select_loops(offsets, whole_loops, stitched, AreaSign::Negative);
    if ccw_plines.len() == 0 && cw_plines.len() == 0 {
        return None;
    }
    proof {
        assert forall|k: int| 0 <= k < ccw_plines@.len() implies (#[trigger] ccw_plines@[k])@.wf() by {
            assert(loop_views(ccw_plines@)[k].wf());
        }
        assert forall|k: int| 0 <= k < cw_plines@.len() implies (#[trigger] cw_plines@[k])@.wf() by {
            assert(loop_views(cw_plines@)[k].wf());
        }
    }
    let shape = Shape::from_loops(ccw_plines, cw_plines);
    Some(shape)
}

} // verus!
