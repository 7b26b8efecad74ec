//! Joining slices end to start into closed chains.

use crate::geometry::Aabb;
use crate::geometry::Point;
use crate::geometry::SLICE_JOIN_EPS;
use crate::spatial::all_wf;
use crate::spatial::build_index;
use crate::spatial::index_boxes;
use crate::spatial::index_query;
use crate::spatial::query_hits;
use vstd::prelude::*;

verus! {

/// A piece of one offset loop that survived: the loop it was cut from and the two
/// points between which it runs, in the direction of the loop.
#[derive(Clone, Copy, Debug, PartialEq, Eq, Structural)]
pub struct DissectedSlice {
    /// The position of the offset loop among all offset loops.
    pub source_idx: usize,
    /// The caller's key, by which it finds the slice as it made it.
    pub key: usize,
    pub start_point: Point,
    pub end_point: Point,
}

/// The square around the start of a slice.
pub open spec fn start_box(slice: DissectedSlice) -> Aabb {
    Aabb::spec_around(slice.start_point, SLICE_JOIN_EPS as int)
}

/// The square around the end of a slice.
pub open spec fn end_box(slice: DissectedSlice) -> Aabb {
    Aabb::spec_around(slice.end_point, SLICE_JOIN_EPS as int)
}

/// The squares around the starts of `slices`, in order.
pub open spec fn start_boxes(slices: Seq<DissectedSlice>) -> Seq<Aabb> {
    Seq::new(slices.len(), |k: int| start_box(slices[k]))
}

/// Whether `i` is a position of `visited` that is not marked.
pub open spec fn is_open(visited: Seq<bool>, i: usize) -> bool {
    i < visited.len() && !visited[i as int]
}

/// The number of positions of `visited` that are not marked.
pub open spec fn open_count(visited: Seq<bool>) -> nat
    decreases visited.len(),
{
    if visited.len() == 0 {
        0
    } else {
        open_count(visited.drop_last()) + if visited.last() {
            0nat
        } else {
            1nat
        }
    }
}

/// The entries of `hits` that are not marked in `visited`, in order.
pub open spec fn open_hits(hits: Seq<usize>, visited: Seq<bool>) -> Seq<usize>
    decreases hits.len(),
{
    if hits.len() == 0 {
        Seq::empty()
    } else if is_open(visited, hits.last()) {
        open_hits(hits.drop_last(), visited).push(hits.last())
    } else {
        open_hits(hits.drop_last(), visited)
    }
}

/// The first entry of `candidates`, from position `from` on, that names a slice cut
/// from loop `source`.
pub open spec fn first_of_source(
    slices: Seq<DissectedSlice>,
    candidates: Seq<usize>,
    source: usize,
    from: int,
) -> Option<usize>
    decreases candidates.len() - from,
{
    if from < 0 || from >= candidates.len() {
        None
    } else if slices[candidates[from] as int].source_idx == source {
        Some(candidates[from])
    } else {
        first_of_source(slices, candidates, source, from + 1)
    }
}

/// The slice that follows: the first candidate cut from loop `source`, and without one
/// the first candidate.
pub open spec fn next_slice(slices: Seq<DissectedSlice>, candidates: Seq<usize>, source: usize) -> usize {
    match first_of_source(slices, candidates, source, 0) {
        Some(i) => i,
        None => candidates[0],
    }
}

/// The slices that may follow slice `current`: those that the index over the start
/// squares reports for the square around its end, less the visited ones.
pub open spec fn candidates_after(slices: Seq<DissectedSlice>, visited: Seq<bool>, current: usize) -> Seq<
    usize,
> {
    open_hits(query_hits(start_boxes(slices), end_box(slices[current as int])), visited)
}

/// The chain that grows from `chain` while its last slice has a follower, and the marks
/// after it.
pub open spec fn trace(slices: Seq<DissectedSlice>, visited: Seq<bool>, chain: Seq<usize>) -> (
    Seq<usize>,
    Seq<bool>,
)
    decreases open_count(visited),
{
    let current = chain.last();
    let candidates = candidates_after(slices, visited, current);
    if candidates.len() == 0 {
        (chain, visited)
    } else {
        let next = next_slice(slices, candidates, slices[current as int].source_idx);
        proof {
            lemma_next_is_candidate(slices, candidates, slices[current as int].source_idx);
            lemma_open_hits(
                query_hits(start_boxes(slices), end_box(slices[current as int])),
                visited,
            );
            lemma_open_count_update(visited, next as int);
        }
        trace(slices, visited.update(next as int, true), chain.push(next))
    }
}

/// The chains seeded at the unvisited slices from position `seed` on, in order.
pub open spec fn stitch_from(slices: Seq<DissectedSlice>, visited: Seq<bool>, seed: int) -> Seq<
    Seq<usize>,
>
    decreases slices.len() - seed,
{
    if seed < 0 || seed >= slices.len() {
        Seq::empty()
    } else if !is_open(visited, seed as usize) {
        stitch_from(slices, visited, seed + 1)
    } else {
        let traced = trace(slices, visited.update(seed, true), seq![seed as usize]);
        seq![traced.0] + stitch_from(slices, traced.1, seed + 1)
    }
}

/// The chains that `slices` are stitched into. Each unvisited slice, in order, seeds a
/// chain; a chain goes on with a follower of its last slice until there is none.
pub open spec fn stitched(slices: Seq<DissectedSlice>) -> Seq<Seq<usize>> {
    stitch_from(slices, Seq::new(slices.len(), |i: int| false), 0)
}

/// The entries of all chains, chain after chain.
pub open spec fn flatten(chains: Seq<Seq<usize>>) -> Seq<usize>
    decreases chains.len(),
{
    if chains.len() == 0 {
        Seq::empty()
    } else {
        flatten(chains.drop_last()) + chains.last()
    }
}

/// The chains as sequences.
pub open spec fn chain_views(chains: Seq<Vec<usize>>) -> Seq<Seq<usize>> {
    Seq::new(chains.len(), |i: int| chains[i]@)
}

/// Every position below `count` stands in exactly one chain, once, and nothing else
/// stands in a chain.
pub open spec fn is_partition(chains: Seq<Seq<usize>>, count: nat) -> bool {
    &&& flatten(chains).no_duplicates()
    &&& forall|i: usize| #[trigger] flatten(chains).contains(i) <==> i < count
}

/// In `chain`, the square around the start of each slice but the first touches the
/// square around the end of the slice before it.
pub open spec fn chain_joined(slices: Seq<DissectedSlice>, chain: Seq<usize>) -> bool {
    &&& chain.len() >= 1
    &&& forall|k: int|
        0 <= k < chain.len() ==> (#[trigger] chain[k]) < slices.len()
    &&& forall|k: int|
        0 <= k < chain.len() - 1 ==> start_box(slices[(#[trigger] chain[k + 1]) as int]).overlaps(
            end_box(slices[chain[k] as int]),
        )
}

/// Every chain is joined.
pub open spec fn chains_joined(slices: Seq<DissectedSlice>, chains: Seq<Seq<usize>>) -> bool {
    forall|c: int| 0 <= c < chains.len() ==> chain_joined(slices, #[trigger] chains[c])
}

/// `members` holds exactly the marked positions of `visited`.
pub open spec fn marks(visited: Seq<bool>, members: Seq<usize>) -> bool {
    forall|i: usize| #[trigger] members.contains(i) <==> (i < visited.len() && visited[i as int])
}

/// Marking an open position leaves one open position less.
pub proof fn lemma_open_count_update(visited: Seq<bool>, i: int)
    requires
        0 <= i < visited.len(),
        !visited[i],
    ensures
        open_count(visited.update(i, true)) + 1 == open_count(visited),
    decreases visited.len(),
{
    let after = visited.update(i, true);
    if i == visited.len() - 1 {
        assert(after.drop_last() == visited.drop_last());
    } else {
        lemma_open_count_update(visited.drop_last(), i);
        assert(after.drop_last() == visited.drop_last().update(i, true));
    }
}

/// Each open hit is a hit and is open.
pub proof fn lemma_open_hits(hits: Seq<usize>, visited: Seq<bool>)
    ensures
        forall|k: int|
            0 <= k < open_hits(hits, visited).len() ==> is_open(
                visited,
                #[trigger] open_hits(hits, visited)[k],
            ) && hits.contains(open_hits(hits, visited)[k]),
    decreases hits.len(),
{
    if hits.len() > 0 {
        let front = hits.drop_last();
        lemma_open_hits(front, visited);
        assert forall|k: int| 0 <= k < open_hits(hits, visited).len() implies is_open(
            visited,
            #[trigger] open_hits(hits, visited)[k],
        ) && hits.contains(open_hits(hits, visited)[k]) by {
            if k < open_hits(front, visited).len() {
                let x = open_hits(front, visited)[k];
                assert(front.contains(x));
                let w = choose|w: int| 0 <= w < front.len() && front[w] == x;
                assert(hits[w] == x);
            } else {
                assert(hits[hits.len() - 1] == hits.last());
            }
        }
    }
}

/// A search for a slice of loop `source` finds an entry of `candidates`, if any.
pub proof fn lemma_first_of_source(
    slices: Seq<DissectedSlice>,
    candidates: Seq<usize>,
    source: usize,
    from: int,
)
    requires
        0 <= from,
    ensures
        first_of_source(slices, candidates, source, from) matches Some(i) ==> candidates.contains(i),
    decreases candidates.len() - from,
{
    if from < candidates.len() {
        if slices[candidates[from] as int].source_idx == source {
            assert(candidates[from] == candidates[from]);
        } else {
            lemma_first_of_source(slices, candidates, source, from + 1);
        }
    }
}

/// The slice that follows is one of the candidates.
pub proof fn lemma_next_is_candidate(slices: Seq<DissectedSlice>, candidates: Seq<usize>, source: usize)
    requires
        candidates.len() > 0,
    ensures
        candidates.contains(next_slice(slices, candidates, source)),
        exists|k: int|
            0 <= k < candidates.len() && candidates[k] == next_slice(slices, candidates, source),
{
    lemma_first_of_source(slices, candidates, source, 0);
    assert(candidates[0] == candidates[0]);
}

/// What `s.push(x)` holds.
pub proof fn lemma_push_contains(s: Seq<usize>, x: usize)
    ensures
        forall|y: usize| #[trigger] s.push(x).contains(y) <==> (s.contains(y) || y == x),
{
    assert forall|y: usize| #[trigger] s.push(x).contains(y) <==> (s.contains(y) || y == x) by {
        if s.push(x).contains(y) {
            let w = choose|w: int| 0 <= w < s.push(x).len() && s.push(x)[w] == y;
            if w < s.len() {
                assert(s[w] == y);
            }
        }
        if s.contains(y) {
            let w = choose|w: int| 0 <= w < s.len() && s[w] == y;
            assert(s.push(x)[w] == y);
        }
        if y == x {
            assert(s.push(x)[s.len() as int] == y);
        }
    }
}

/// A new entry at the end keeps a sequence free of duplicates.
pub proof fn lemma_push_no_duplicates(s: Seq<usize>, x: usize)
    requires
        s.no_duplicates(),
        !s.contains(x),
    ensures
        s.push(x).no_duplicates(),
{
    assert forall|i: int, j: int|
        0 <= i < s.push(x).len() && 0 <= j < s.push(x).len() && i != j implies s.push(x)[i]
        != s.push(x)[j] by {
        if i < s.len() && j < s.len() {
        } else if i < s.len() {
            assert(s[i] == s[i]);
        } else {
            assert(s[j] == s[j]);
        }
    }
}

/// The unvisited entries of `hits`, in order.
pub fn open_candidates(hits: &Vec<usize>, visited: &Vec<bool>) -> (candidates: Vec<usize>)
    ensures
        candidates@ == open_hits(hits@, visited@),
{
    let mut candidates: Vec<usize> = Vec::new();
    let mut k: usize = 0;
    while k < hits.len()
        invariant
            k <= hits.len(),
            candidates@ == open_hits(hits@.take(k as int), visited@),
        decreases hits.len() - k,
    {
        let i: usize = hits[k];
        assert(hits@.take(k + 1).drop_last() == hits@.take(k as int));
        if i < visited.len() && !visited[i] {
            candidates.push(i);
        }
        k += 1;
    }
    assert(hits@.take(k as int) == hits@);
    candidates
}

/// The slice that follows one cut from loop `source`: the first candidate cut from the
/// same loop, and without one the first candidate.
pub fn pick_next(slices: &Vec<DissectedSlice>, candidates: &Vec<usize>, source: usize) -> (next: usize)
    requires
        candidates.len() > 0,
        forall|k: int| 0 <= k < candidates.len() ==> (#[trigger] candidates@[k]) < slices.len(),
    ensures
        next == next_slice(slices@, candidates@, source),
{
    let mut k: usize = 0;
    while k < candidates.len()
        invariant
            k <= candidates.len(),
            forall|j: int| 0 <= j < candidates.len() ==> (#[trigger] candidates@[j]) < slices.len(),
            first_of_source(slices@, candidates@, source, 0) == first_of_source(
                slices@,
                candidates@,
                source,
                k as int,
            ),
        decreases candidates.len() - k,
    {
        let i: usize = candidates[k];
        if slices[i].source_idx == source {
            return i;
        }
        k += 1;
    }
    candidates[0]
}

/// Stitches `slices` into chains. A slice follows another when the square of half
/// side `SLICE_JOIN_EPS` around its start touches the square around the other's end.
/// Each slice that no chain holds yet seeds a chain, in order; the chain goes on with
/// an unvisited follower of its last slice, a slice of the same offset loop before any
/// other, until there is no such follower. Each step of a chain visits a slice that
/// was not visited before, so a chain ends, and every slice ends up in exactly one
/// chain.
pub fn stitch_slices(slices: &Vec<DissectedSlice>) -> (chains: Vec<Vec<usize>>)
    ensures
        chain_views(chains@) == stitched(slices@),
        is_partition(chain_views(chains@), slices@.len()),
        chains_joined(slices@, chain_views(chains@)),
{
    let n: usize = slices.len();
    let mut boxes: Vec<Aabb> = Vec::new();
    let mut visited: Vec<bool> = Vec::new();
    let mut k: usize = 0;
    while k < n
        invariant
            n == slices.len(),
            k <= n,
            boxes@ == start_boxes(slices@).take(k as int),
            visited@ == Seq::new(k as nat, |i: int| false),
            all_wf(boxes@),
        decreases n - k,
    {
        boxes.push(Aabb::around(slices[k].start_point, SLICE_JOIN_EPS));
        visited.push(false);
        assert(boxes@ == start_boxes(slices@).take(k + 1));
        assert(visited@ == Seq::new((k + 1) as nat, |i: int| false));
        k += 1;
    }
    assert(boxes@ == start_boxes(slices@));
    let index = build_index(&boxes);
    let mut stack: Vec<usize> = Vec::new();
    let mut chains: Vec<Vec<usize>> = Vec::new();
    let mut seed: usize = 0;
    assert(chain_views(chains@) + stitch_from(slices@, visited@, 0) == stitched(slices@));
    while seed < n
        invariant
            n == slices.len(),
            seed <= n,
            visited.len() == n,
            index_boxes(index) == start_boxes(slices@),
            stitched(slices@) == chain_views(chains@) + stitch_from(slices@, visited@, seed as int),
            flatten(chain_views(chains@)).no_duplicates(),
            marks(visited@, flatten(chain_views(chains@))),
            forall|i: int| 0 <= i < seed ==> #[trigger] visited@[i],
            chains_joined(slices@, chain_views(chains@)),
        decreases n - seed,
    {
        if !visited[seed] {
            let ghost before = visited@;
            let ghost done_chains = flatten(chain_views(chains@));
            visited[seed] = true;
            let mut chain: Vec<usize> = Vec::new();
            chain.push(seed);
            let mut current: usize = seed;
            let mut growing: bool = true;
            proof {
                assert(chain@ == seq![seed]);
                assert(!done_chains.contains(seed));
                lemma_push_no_duplicates(done_chains, seed);
                lemma_push_contains(done_chains, seed);
                assert(done_chains + chain@ == done_chains.push(seed));
            }
            while growing
                invariant
                    n == slices.len(),
                    visited.len() == n,
                    index_boxes(index) == start_boxes(slices@),
                    chain.len() >= 1,
                    current == chain@.last(),
                    current < n,
                    trace(slices@, before.update(seed as int, true), seq![seed]) == trace(
                        slices@,
                        visited@,
                        chain@,
                    ),
                    !growing ==> trace(slices@, visited@, chain@) == (chain@, visited@),
                    (done_chains + chain@).no_duplicates(),
                    marks(visited@, done_chains + chain@),
                    chain_joined(slices@, chain@),
                    before.len() == n,
                    seed < n,
                    visited@[seed as int],
                    forall|i: int| 0 <= i < n && before[i] ==> #[trigger] visited@[i],
                decreases open_count(visited@) + if growing { 1nat } else { 0nat },
            {
                let ghost hit_box = end_box(slices@[current as int]);
                let hits = index_query(
                    &index,
                    Aabb::around(slices[current].end_point, SLICE_JOIN_EPS),
                    &mut stack,
                );
                let candidates = open_candidates(&hits, &visited);
                assert(candidates@ == candidates_after(slices@, visited@, current));
                if candidates.len() == 0 {
                    growing = false;
                } else {
                    proof {
                        lemma_open_hits(hits@, visited@);
                        lemma_next_is_candidate(
                            slices@,
                            candidates@,
                            slices@[current as int].source_idx,
                        );
                    }
                    let next = pick_next(slices, &candidates, slices[current].source_idx);
                    let ghost grown = done_chains + chain@;
                    proof {
                        let w = choose|w: int|
                            0 <= w < candidates.len() && candidates@[w] == next;
                        assert(is_open(visited@, candidates@[w]));
                        assert(hits@.contains(next));
                        let h = choose|h: int| 0 <= h < hits.len() && hits@[h] == next;
                        assert(hits@[h] < start_boxes(slices@).len());
                        assert(start_boxes(slices@)[next as int].overlaps(hit_box));
                        assert(!grown.contains(next));
                        lemma_push_no_duplicates(grown, next);
                        lemma_push_contains(grown, next);
                        lemma_open_count_update(visited@, next as int);
                        assert(done_chains + chain@.push(next) == grown.push(next));
                    }
                    visited[next] = true;
                    chain.push(next);
                    current = next;
                }
            }
            proof {
                let tail = stitch_from(slices@, visited@, seed + 1);
                assert(stitch_from(slices@, before, seed as int) == seq![chain@] + tail);
                assert(chain_views(chains@.push(chain)) == chain_views(chains@).push(chain@));
                assert(chain_views(chains@).push(chain@).drop_last() == chain_views(chains@));
                assert(flatten(chain_views(chains@).push(chain@)) == done_chains + chain@);
                assert(chain_views(chains@).push(chain@) + tail == chain_views(chains@) + (seq![
                    chain@,
                ] + tail));
            }
            chains.push(chain);
        }
        seed += 1;
    }
    proof {
        let all = flatten(chain_views(chains@));
        assert(chain_views(chains@) + Seq::<Seq<usize>>::empty() == chain_views(chains@));
        assert forall|i: usize| #[trigger] all.contains(i) <==> i < slices@.len() by {
            if i < slices@.len() {
                assert(visited@[i as int]);
            }
        }
    }
    chains
}

} // verus!
