//! Bookkeeping for the parallel offset of a planar shape made of closed loops.
//!
//! A shape is a list of counter clockwise boundary loops and a list of clockwise hole
//! loops. Offsetting it takes four rounds of geometry (offset each loop, intersect
//! pairs of offset loops, cut and probe slices, trace and orient stitched loops), and
//! between the rounds the decisions that this crate makes and proves: which raw
//! offsets survive and under which orientation, which pairs of offset loops have to be
//! intersected, where each loop is dissected, which slices are kept, how slices are
//! joined end to start into closed loops, and how the result is assembled.
//!
//! Coordinates are integers on a fixed grid, `geometry::GRID_SCALE` units to one model
//! unit, so that every comparison the bookkeeping makes is exact. A polyline is held
//! by what the bookkeeping reads of it, under a key by which the caller finds the full
//! polyline again.
//!
//! - `geometry`: points, boxes and tolerances on the grid.
//! - `spatial`: the static box index, and what is taken on trust of it.
//! - `shape`: polylines, indexed loops and shapes.
//! - `offsets`: raw offsets sorted into offset loops.
//! - `pairs`: the pairs of offset loops to intersect.
//! - `intersects`: intersections gathered into slice point sets.
//! - `dissect`: dissection points, slice candidates, probes and survivors.
//! - `stitch`: slices joined into chains.
//! - `assemble`: the loops of the result gathered into a shape.
//! - `pipeline`: the stages in their order, from `Shape::parallel_offset` on.
//! - `laws`: what holds of the stages taken together.

pub mod assemble;
pub mod dissect;
pub mod geometry;
pub mod intersects;
pub mod laws;
pub mod offsets;
pub mod pairs;
pub mod pipeline;
pub mod shape;
pub mod spatial;
pub mod stitch;
