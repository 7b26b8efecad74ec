//! The static box index that answers overlap queries, and what is taken on trust of it.

use crate::geometry::Aabb;
use static_aabb2d_index::StaticAABB2DIndex;
use static_aabb2d_index::StaticAABB2DIndexBuildError;
use static_aabb2d_index::StaticAABB2DIndexBuilder;
use vstd::prelude::*;

verus! {

/// A static index over boxes with grid coordinates: a `StaticAABB2DIndex<i64>`. Of
/// what is inside, only the boxes that `index_boxes` names are spoken of.
#[verifier::external_body]
pub struct BoxIndex {
    inner: StaticAABB2DIndex<i64>,
}

/// A box index under construction: a `StaticAABB2DIndexBuilder<i64>`.
#[verifier::external_body]
pub struct BoxIndexBuilder {
    inner: StaticAABB2DIndexBuilder<i64>,
}

/// Why `StaticAABB2DIndexBuilder::build` failed; carried as it is.
#[verifier::external_type_specification]
#[verifier::external_body]
pub struct ExStaticAABB2DIndexBuildError(StaticAABB2DIndexBuildError);

/// The boxes that an index holds, in the order in which they were added.
pub uninterp spec fn index_boxes(index: BoxIndex) -> Seq<Aabb>;

/// The boxes added to a builder so far, in the order in which they were added.
pub uninterp spec fn builder_boxes(builder: BoxIndexBuilder) -> Seq<Aabb>;

/// The number of boxes that a builder was made for.
pub uninterp spec fn builder_capacity(builder: BoxIndexBuilder) -> nat;

/// The positions that a query of an index over `boxes` reports for the box `query`, in
/// the order in which it reports them.
pub uninterp spec fn query_hits(boxes: Seq<Aabb>, query: Aabb) -> Seq<usize>;

/// Every box of the sequence is well formed.
pub open spec fn all_wf(boxes: Seq<Aabb>) -> bool {
    forall|i: int| 0 <= i < boxes.len() ==> (#[trigger] boxes[i]).wf()
}

/// `hits` names each box of `boxes` that overlaps `query`, once, and no other.
pub open spec fn is_query_answer(boxes: Seq<Aabb>, query: Aabb, hits: Seq<usize>) -> bool {
    &&& forall|k: int|
        0 <= k < hits.len() ==> (#[trigger] hits[k]) < boxes.len() && boxes[hits[k] as int].overlaps(
            query,
        )
    &&& forall|i: int|
        0 <= i < boxes.len() && (#[trigger] boxes[i]).overlaps(query) ==> hits.contains(i as usize)
    &&& hits.no_duplicates()
}

/// The smallest box that holds the first `n` boxes of `boxes`; `n` is at least 1.
pub open spec fn hull(boxes: Seq<Aabb>, n: nat) -> Aabb
    decreases n,
{
    if n <= 1 {
        boxes[0]
    } else {
        hull(boxes, (n - 1) as nat).union(boxes[n - 1])
    }
}

/// The smallest box that holds all of `boxes`, if there is any.
pub open spec fn total_bounds(boxes: Seq<Aabb>) -> Option<Aabb> {
    if boxes.len() == 0 {
        None
    } else {
        Some(hull(boxes, boxes.len()))
    }
}

/// The hull of well formed boxes is well formed.
pub proof fn lemma_hull_wf(boxes: Seq<Aabb>, n: nat)
    requires
        all_wf(boxes),
        1 <= n <= boxes.len(),
    ensures
        hull(boxes, n).wf(),
    decreases n,
{
    if n > 1 {
        lemma_hull_wf(boxes, (n - 1) as nat);
        assert(boxes[n - 1].wf());
    } else {
        assert(boxes[0].wf());
    }
}

/// `StaticAABB2DIndexBuilder::new`: a builder for exactly `count` boxes, none added yet.
#[verifier::external_body]
fn builder_new(count: usize) -> (builder: BoxIndexBuilder)
    ensures
        builder_boxes(builder) == Seq::<Aabb>::empty(),
        builder_capacity(builder) == count,
{
    BoxIndexBuilder { inner: StaticAABB2DIndexBuilder::new(count) }
}

/// `StaticAABB2DIndexBuilder::add`: while the builder is not full, the box is appended
/// to what it holds. The builder asserts in debug builds that the corners are ordered,
/// hence the demand on `item`.
#[verifier::external_body]
fn builder_add(builder: &mut BoxIndexBuilder, item: Aabb)
    requires
        item.wf(),
        builder_boxes(*old(builder)).len() < builder_capacity(*old(builder)),
    ensures
        builder_boxes(*final(builder)) == builder_boxes(*old(builder)).push(item),
        builder_capacity(*final(builder)) == builder_capacity(*old(builder)),
{
    builder.inner.add(item.min_x, item.min_y, item.max_x, item.max_y);
}

/// `StaticAABB2DIndexBuilder::build`: succeeds exactly when as many boxes were added as
/// the builder was made for (an `i64` always converts to the `f64` that sorting
/// works on), and the index then holds the boxes in the order in which they were added.
/// Building subtracts the least coordinate from the greatest, which stays within `i64`
/// for well formed boxes.
#[verifier::external_body]
fn builder_build(builder: BoxIndexBuilder) -> (built: Result<
    BoxIndex,
    StaticAABB2DIndexBuildError,
>)
    requires
        all_wf(builder_boxes(builder)),
    ensures
        built.is_ok() <==> builder_boxes(builder).len() == builder_capacity(builder),
        built matches Ok(index) ==> index_boxes(index) == builder_boxes(builder),
{
    builder.inner.build().map(|inner| BoxIndex { inner })
}

/// `StaticAABB2DIndex::query_with_stack`: the positions, in order of adding, of the
/// boxes that overlap `query`, each once, in an order that the tree inside the index
/// fixes. `stack` is scratch space.
#[verifier::external_body]
pub(crate) fn index_query(index: &BoxIndex, query: Aabb, stack: &mut Vec<usize>) -> (hits:
    Vec<usize>)
    ensures
        hits@ == query_hits(index_boxes(*index), query),
        is_query_answer(index_boxes(*index), query, hits@),
{
    index.inner.query_with_stack(query.min_x, query.min_y, query.max_x, query.max_y, stack)
}

/// `StaticAABB2DIndex::bounds`: the smallest box that holds every box of the index, or
/// nothing for an index without boxes.
#[verifier::external_body]
pub(crate) fn index_bounds(index: &BoxIndex) -> (bounds: Option<Aabb>)
    ensures
        bounds == total_bounds(index_boxes(*index)),
{
    index.inner.bounds().map(
        |b| Aabb { min_x: b.min_x, min_y: b.min_y, max_x: b.max_x, max_y: b.max_y },
    )
}

/// `StaticAABB2DIndex::clone`: an index that holds the same boxes.
#[verifier::external_body]
pub(crate) fn index_clone(index: &BoxIndex) -> (copy: BoxIndex)
    ensures
        index_boxes(copy) == index_boxes(*index),
{
    BoxIndex { inner: index.inner.clone() }
}

/// An index over `boxes`, position by position.
pub fn build_index(boxes: &Vec<Aabb>) -> (index: BoxIndex)
    requires
        all_wf(boxes@),
    ensures
        index_boxes(index) == boxes@,
{
    let mut builder = builder_new(boxes.len());
    let mut i: usize = 0;
    while i < boxes.len()
        invariant
            i <= boxes.len(),
            all_wf(boxes@),
            builder_capacity(builder) == boxes.len(),
            builder_boxes(builder) == boxes@.take(i as int),
        decreases boxes.len() - i,
    {
        builder_add(&mut builder, boxes[i]);
        assert(boxes@.take(i as int).push(boxes@[i as int]) == boxes@.take(i + 1));
        i += 1;
    }
    assert(boxes@.take(i as int) == boxes@);
    builder_build(builder).unwrap()
}

} // verus!
