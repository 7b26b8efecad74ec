//! Raw offsets sorted into counter clockwise and clockwise offset loops.

use crate::geometry::Aabb;
use crate::shape::AreaSign;
use crate::shape::IndexedPolyline;
use crate::shape::OffsetLoop;
use crate::shape::OffsetLoopView;
use vstd::prelude::*;

verus! {

/// The offset loops of a shape in one list: the counter clockwise ones at the positions
/// below `ccw_count`, the clockwise ones from there on.
pub struct OffsetLoops {
    pub loops: Vec<OffsetLoop>,
    pub ccw_count: usize,
}

/// The values of `loops`, in order.
pub open spec fn offset_views(loops: Seq<OffsetLoop>) -> Seq<OffsetLoopView> {
    Seq::new(loops.len(), |i: int| loops[i]@)
}

/// The bounds of `loops`, in order.
pub open spec fn offset_bounds(loops: Seq<OffsetLoopView>) -> Seq<Aabb> {
    Seq::new(loops.len(), |i: int| loops[i].indexed_pline.bounds())
}

/// Every loop from position `from` up to `to` is well formed and has area of sign
/// `sign`.
pub open spec fn oriented_between(loops: Seq<OffsetLoopView>, from: int, to: int, sign: AreaSign) -> bool {
    forall|i: int|
        from <= i < to && 0 <= i < loops.len() ==> (#[trigger] loops[i]).indexed_pline.wf()
            && loops[i].indexed_pline.polyline.area == sign
}

/// Every raw offset of every input loop is well formed.
pub open spec fn raw_wf(raw: Seq<Vec<IndexedPolyline>>) -> bool {
    forall|i: int, j: int|
        0 <= i < raw.len() && 0 <= j < raw[i]@.len() ==> (#[trigger] raw[i]@[j])@.wf()
}

/// The raw offsets among `raw` that have area of sign `sign`, in order, each with its
/// input loop `parent`.
pub open spec fn kept(raw: Seq<IndexedPolyline>, parent: usize, sign: AreaSign) -> Seq<OffsetLoopView>
    decreases raw.len(),
{
    if raw.len() == 0 {
        Seq::empty()
    } else if raw.last()@.polyline.area == sign {
        kept(raw.drop_last(), parent, sign).push(
            OffsetLoopView { parent_loop_idx: parent, indexed_pline: raw.last()@ },
        )
    } else {
        kept(raw.drop_last(), parent, sign)
    }
}

/// The raw offsets with area of sign `sign` of the input loops from position `lo` up
/// to `hi`, input loop after input loop.
pub open spec fn kept_between(raw: Seq<Vec<IndexedPolyline>>, lo: int, hi: int, sign: AreaSign) -> Seq<
    OffsetLoopView,
>
    decreases hi - lo,
{
    if hi <= lo || lo < 0 || hi > raw.len() {
        Seq::empty()
    } else {
        kept_between(raw, lo, hi - 1, sign) + kept(raw[hi - 1]@, (hi - 1) as usize, sign)
    }
}

/// The number of counter clockwise input loops among the `count` input loops that
/// offsets were made for.
pub open spec fn ccw_inputs(count: nat, ccw_input_count: usize) -> int {
    if ccw_input_count <= count {
        ccw_input_count as int
    } else {
        count as int
    }
}

/// The counter clockwise offset loops: of each counter clockwise input loop, in order,
/// the offsets of positive area, then those of each clockwise input loop.
pub open spec fn ccw_offsets(raw: Seq<Vec<IndexedPolyline>>, ccw_input_count: usize) -> Seq<OffsetLoopView> {
    let split = ccw_inputs(raw.len(), ccw_input_count);
    kept_between(raw, 0, split, AreaSign::Positive) + kept_between(
        raw,
        split,
        raw.len() as int,
        AreaSign::Positive,
    )
}

/// The clockwise offset loops: of each clockwise input loop, in order, the offsets of
/// negative area.
pub open spec fn cw_offsets(raw: Seq<Vec<IndexedPolyline>>, ccw_input_count: usize) -> Seq<OffsetLoopView> {
    kept_between(
        raw,
        ccw_inputs(raw.len(), ccw_input_count),
        raw.len() as int,
        AreaSign::Negative,
    )
}

impl OffsetLoops {
    /// The counter clockwise loops come first, and every loop is well formed.
    pub open spec fn wf(&self) -> bool {
        &&& self.ccw_count <= self.loops@.len()
        &&& oriented_between(offset_views(self.loops@), 0, self.ccw_count as int, AreaSign::Positive)
        &&& oriented_between(
            offset_views(self.loops@),
            self.ccw_count as int,
            self.loops@.len() as int,
            AreaSign::Negative,
        )
    }

    /// The number of offset loops.
    pub fn len(&self) -> (n: usize)
        ensures
            n == self.loops@.len(),
    {
        self.loops.len()
    }

    /// The offset loop at position `i`.
    pub fn get_loop(&self, i: usize) -> (found: &OffsetLoop)
        requires
            i < self.loops@.len(),
        ensures
            *found == self.loops@[i as int],
    {
        &self.loops[i]
    }

    /// The bounds of every offset loop, in order.
    pub fn bounds(&self) -> (all: Vec<Aabb>)
        requires
            self.wf(),
        ensures
            all@ == offset_bounds(offset_views(self.loops@)),
            crate::spatial::all_wf(all@),
    {
        let mut all: Vec<Aabb> = Vec::new();
        let mut i: usize = 0;
        while i < self.loops.len()
            invariant
                self.wf(),
                i <= self.loops.len(),
                all@ == offset_bounds(offset_views(self.loops@)).take(i as int),
                crate::spatial::all_wf(all@),
            decreases self.loops.len() - i,
        {
            assert(offset_views(self.loops@)[i as int].indexed_pline.wf());
            all.push(self.loops[i].indexed_pline.bounds());
            assert(all@ == offset_bounds(offset_views(self.loops@)).take(i + 1));
            i += 1;
        }
        assert(all@ == offset_bounds(offset_views(self.loops@)));
        all
    }
}

/// Appends to `out` the offsets among `raw` that have area of sign `sign`.
fn push_kept(out: &mut Vec<OffsetLoop>, raw: &Vec<IndexedPolyline>, parent: usize, sign: AreaSign)
    requires
        forall|j: int| 0 <= j < raw.len() ==> (#[trigger] raw@[j])@.wf(),
    ensures
        offset_views(final(out)@) == offset_views(old(out)@) + kept(raw@, parent, sign),
        final(out)@.len() >= old(out)@.len(),
        oriented_between(
            offset_views(final(out)@),
            old(out)@.len() as int,
            final(out)@.len() as int,
            sign,
        ),
{
    let ghost before = offset_views(out@);
    let mut j: usize = 0;
    assert(raw@.take(0).len() == 0);
    assert(before + kept(raw@.take(0), parent, sign) == before);
    while j < raw.len()
        invariant
            j <= raw.len(),
            before == offset_views(old(out)@),
            forall|q: int| 0 <= q < raw.len() ==> (#[trigger] raw@[q])@.wf(),
            offset_views(out@) == before + kept(raw@.take(j as int), parent, sign),
            oriented_between(offset_views(out@), before.len() as int, out@.len() as int, sign),
        decreases raw.len() - j,
    {
        assert(raw@.take(j + 1).drop_last() == raw@.take(j as int));
        assert(raw@.take(j + 1).last() == raw@[j as int]);
        if raw[j].polyline.area == sign {
            let ghost views = offset_views(out@);
            let copy = raw[j].clone();
            let made = OffsetLoop { parent_loop_idx: parent, indexed_pline: copy };
            out.push(made);
            assert(offset_views(out@) == views.push(made@));
            assert(before + kept(raw@.take(j as int), parent, sign).push(made@) == views.push(
                made@,
            ));
            assert(raw@[j as int]@.wf());
        }
        j += 1;
    }
    assert(raw@.take(j as int) == raw@);
}

/// Appends to `out` the offsets with area of sign `sign` of the input loops from
/// position `lo` up to `hi`.
fn push_kept_between(
    out: &mut Vec<OffsetLoop>,
    raw: &Vec<Vec<IndexedPolyline>>,
    lo: usize,
    hi: usize,
    sign: AreaSign,
)
    requires
        raw_wf(raw@),
        lo <= hi <= raw.len(),
    ensures
        offset_views(final(out)@) == offset_views(old(out)@) + kept_between(
            raw@,
            lo as int,
            hi as int,
            sign,
        ),
        final(out)@.len() >= old(out)@.len(),
        oriented_between(
            offset_views(final(out)@),
            old(out)@.len() as int,
            final(out)@.len() as int,
            sign,
        ),
        forall|i: int|
            0 <= i < old(out)@.len() ==> offset_views(final(out)@)[i] == offset_views(old(out)@)[i],
{
    let ghost before = offset_views(out@);
    let mut i: usize = lo;
    assert(before + kept_between(raw@, lo as int, lo as int, sign) == before);
    while i < hi
        invariant
            lo <= i <= hi,
            hi <= raw.len(),
            raw_wf(raw@),
            before == offset_views(old(out)@),
            offset_views(out@) == before + kept_between(raw@, lo as int, i as int, sign),
            oriented_between(offset_views(out@), before.len() as int, out@.len() as int, sign),
        decreases hi - i,
    {
        let ghost views = offset_views(out@);
        assert forall|j: int| 0 <= j < raw@[i as int]@.len() implies (#[trigger] raw@[i as int]@[j])@.wf() by {
            assert(raw@[i as int]@[j]@.wf());
        }
        push_kept(out, &raw[i], i, sign);
        assert(before + kept_between(raw@, lo as int, i + 1, sign) == views + kept(
            raw@[i as int]@,
            i,
            sign,
        ));
        assert forall|q: int|
            before.len() <= q < out@.len() implies (#[trigger] offset_views(out@)[q]).indexed_pline.wf()
            && offset_views(out@)[q].indexed_pline.polyline.area == sign by {
            if q < views.len() {
                assert(offset_views(out@)[q] == views[q]);
            }
        }
        i += 1;
    }
}

/// Sorts the raw offsets of a shape into offset loops. `raw` holds, for each input
/// loop in the order of the shape, what offsetting that loop alone gave; the first
/// `ccw_input_count` input loops are the counter clockwise ones.
///
/// An offset of a counter clockwise loop is kept when its area is positive: one of
/// negative area has turned inside out in a region too narrow for the offset and has
/// vanished. An offset of a clockwise loop is a clockwise offset loop when its area is
/// negative and a counter clockwise one when it is positive. Offsets without area are
/// dropped. There is no result when nothing is kept.
pub fn create_offset_loops(raw: &Vec<Vec<IndexedPolyline>>, ccw_input_count: usize) -> (made: Option<
    OffsetLoops,
>)
    requires
        raw_wf(raw@),
    ensures
        made.is_none() <==> ccw_offsets(raw@, ccw_input_count).len() + cw_offsets(
            raw@,
            ccw_input_count,
        ).len() == 0,
        made matches Some(offsets) ==> {
            &&& offsets.wf()
            &&& offset_views(offsets.loops@) == ccw_offsets(raw@, ccw_input_count) + cw_offsets(
                raw@,
                ccw_input_count,
            )
            &&& offsets.ccw_count == ccw_offsets(raw@, ccw_input_count).len()
        },
{
    let split: usize = if ccw_input_count <= raw.len() {
        ccw_input_count
    } else {
        raw.len()
    };
    let mut loops: Vec<OffsetLoop> = Vec::new();
    assert(offset_views(loops@) == Seq::<OffsetLoopView>::empty());
    push_kept_between(&mut loops, raw, 0, split, AreaSign::Positive);
    let ghost first = offset_views(loops@);
    push_kept_between(&mut loops, raw, split, raw.len(), AreaSign::Positive);
    let ghost second = offset_views(loops@);
    let ccw_count: usize = loops.len();
    push_kept_between(&mut loops, raw, split, raw.len(), AreaSign::Negative);
    proof {
        assert(first == kept_between(raw@, 0, split as int, AreaSign::Positive));
        assert(second == ccw_offsets(raw@, ccw_input_count));
        assert forall|i: int| 0 <= i < ccw_count implies (#[trigger] offset_views(
            loops@,
        )[i]).indexed_pline.wf() && offset_views(loops@)[i].indexed_pline.polyline.area
            == AreaSign::Positive by {
            assert(offset_views(loops@)[i] == second[i]);
            if i < first.len() {
                assert(second[i] == first[i]);
            }
        }
    }
    if loops.len() == 0 {
        None
    } else {
        Some(OffsetLoops { loops, ccw_count })
    }
}

} // verus!
