use vstd::prelude::*;

use crate::chunk_queue::ChunkQueue;
use crate::chunk_set::{is_missing_listing, missing_chunks, VisitedChunks};
use crate::chunks::{chunk_in_range, dist2, in_sphere, sphere_fits, ChunkCoord, LOAD_RADIUS};

verus! {

/// Asteroid spawns allowed per frame (model build and upload are the
/// expensive steps).
pub const MAX_SPAWNS_PER_FRAME: usize = 32;

/// Chunk evaluations (density gate) allowed per frame.
pub const MAX_CHUNK_EVALS_PER_FRAME: usize = 256;

/// `chunk` lies within the load radius of `center`.
pub open spec fn in_load_range(chunk: ChunkCoord, center: ChunkCoord) -> bool {
    dist2(chunk, center) <= LOAD_RADIUS * LOAD_RADIUS
}

/// The chunks of `q` that are in load range and whose density gate answered
/// `true` in `ans` (same index), in queue order.
pub open spec fn gate_batch(q: Seq<ChunkCoord>, ans: Seq<bool>, center: ChunkCoord) -> Seq<ChunkCoord>
    decreases q.len(),
{
    if q.len() == 0 {
        Seq::empty()
    } else {
        let rest = gate_batch(q.drop_last(), ans, center);
        if in_load_range(q.last(), center) && ans[q.len() - 1] {
            rest.push(q.last())
        } else {
            rest
        }
    }
}

/// The chunks of `q` that are in load range.
pub open spec fn gate_evaluated(q: Seq<ChunkCoord>, center: ChunkCoord) -> Set<ChunkCoord> {
    Set::new(|c: ChunkCoord| q.contains(c) && in_load_range(c, center))
}

/// Queue `q` after `enqueue` of each chunk of `s` in order.
pub open spec fn enqueue_all(q: Seq<ChunkCoord>, s: Seq<ChunkCoord>) -> Seq<ChunkCoord>
    decreases s.len(),
{
    if s.len() == 0 {
        q
    } else {
        let before = enqueue_all(q, s.drop_last());
        if before.contains(s.last()) {
            before
        } else {
            before.push(s.last())
        }
    }
}

/// Enqueue every chunk within `radius` of `center` that is neither visited
/// nor already queued, in x-then-y-then-z order. Returns the missing
/// (unvisited) chunks that were offered to the queue.
pub fn queue_missing_chunks(
    queue: &mut ChunkQueue,
    visited: &VisitedChunks,
    center: ChunkCoord,
    radius: i32,
) -> (missing: Vec<ChunkCoord>)
    requires
        sphere_fits(center, radius),
    ensures
        is_missing_listing(center, radius as int, visited@, missing@),
        final(queue)@ == enqueue_all(old(queue)@, missing@),
{
    let chunks = missing_chunks(center, radius, visited);
    let mut i: usize = 0;
    while i < chunks.len()
        invariant
            i <= chunks@.len(),
            queue@ == enqueue_all(old(queue)@, chunks@.take(i as int)),
        decreases chunks@.len() - i,
    {
        let c = chunks[i];
        queue.enqueue(c);
        proof {
            let s = chunks@.take(i + 1);
            assert(s.drop_last() =~= chunks@.take(i as int));
            assert(s.last() == c);
        }
        i = i + 1;
    }
    proof {
        assert(chunks@.take(chunks@.len() as int) =~= chunks@);
    }
    chunks
}

/// One frame of the density gate: pop queued chunks (at most
/// `MAX_CHUNK_EVALS_PER_FRAME`), drop stale ones that left the load radius
/// without marking them visited (so they re-enqueue if the ship returns),
/// mark the others visited and ask `has_asteroid` about them; stop once
/// `MAX_SPAWNS_PER_FRAME` chunks have an asteroid. Returns those chunks in
/// queue order.
pub fn select_spawn_batch<F: Fn(ChunkCoord) -> bool>(
    queue: &mut ChunkQueue,
    visited: &mut VisitedChunks,
    center: ChunkCoord,
    has_asteroid: F,
) -> (batch: Vec<ChunkCoord>)
    requires
        forall|c: ChunkCoord| has_asteroid.requires((c,)),
    ensures
        exists|k: int, ans: Seq<bool>|
            {
                &&& 0 <= k <= old(queue)@.len()
                &&& k <= MAX_CHUNK_EVALS_PER_FRAME
                &&& ans.len() == k
                &&& forall|i: int|
                    0 <= i < k && in_load_range(old(queue)@[i], center) ==> has_asteroid.ensures(
                        (old(queue)@[i],),
                        #[trigger] ans[i],
                    )
                &&& final(queue)@ == old(queue)@.skip(k)
                &&& batch@ == gate_batch(old(queue)@.take(k), ans, center)
                &&& final(visited)@ == old(visited)@.union(gate_evaluated(old(queue)@.take(k), center))
                &&& k == old(queue)@.len() || k == MAX_CHUNK_EVALS_PER_FRAME || batch@.len() == MAX_SPAWNS_PER_FRAME
                &&& batch@.len() <= MAX_SPAWNS_PER_FRAME
                &&& batch@.len() == MAX_SPAWNS_PER_FRAME ==> k > 0 && in_load_range(old(queue)@[k - 1], center) && ans[k - 1]
            },
{
    let ghost q0 = queue@;
    let ghost v0 = visited@;
    let ghost mut ans: Seq<bool> = Seq::empty();
    let mut batch: Vec<ChunkCoord> = Vec::new();
    let mut evals: usize = 0;
    proof {
        assert(q0.take(0) =~= Seq::<ChunkCoord>::empty());
        assert(gate_evaluated(q0.take(0), center) =~= Set::<ChunkCoord>::empty());
        assert(v0.union(Set::<ChunkCoord>::empty()) =~= v0);
    }
    while evals < MAX_CHUNK_EVALS_PER_FRAME
        invariant_except_break
            batch@.len() < MAX_SPAWNS_PER_FRAME,
        invariant
            forall|c: ChunkCoord| has_asteroid.requires((c,)),
            evals <= MAX_CHUNK_EVALS_PER_FRAME,
            evals <= q0.len(),
            ans.len() == evals,
            forall|i: int|
                0 <= i < evals && in_load_range(q0[i], center) ==> has_asteroid.ensures((q0[i],), #[trigger] ans[i]),
            queue@ == q0.skip(evals as int),
            batch@ == gate_batch(q0.take(evals as int), ans, center),
            visited@ == v0.union(gate_evaluated(q0.take(evals as int), center)),
        ensures
            evals <= MAX_CHUNK_EVALS_PER_FRAME,
            evals <= q0.len(),
            ans.len() == evals,
            forall|i: int|
                0 <= i < evals && in_load_range(q0[i], center) ==> has_asteroid.ensures((q0[i],), #[trigger] ans[i]),
            queue@ == q0.skip(evals as int),
            batch@ == gate_batch(q0.take(evals as int), ans, center),
            visited@ == v0.union(gate_evaluated(q0.take(evals as int), center)),
            evals == q0.len() || evals == MAX_CHUNK_EVALS_PER_FRAME || batch@.len() == MAX_SPAWNS_PER_FRAME,
            batch@.len() <= MAX_SPAWNS_PER_FRAME,
            batch@.len() == MAX_SPAWNS_PER_FRAME ==> evals > 0 && in_load_range(q0[evals - 1], center) && ans[evals - 1],
        decreases MAX_CHUNK_EVALS_PER_FRAME - evals,
    {
        let popped = queue.pop_front();
        let chunk = match popped {
            Some(c) => c,
            None => {
                proof {
                    assert(q0.skip(evals as int).len() == 0);
                }
                break;
            },
        };
        proof {
            assert(chunk == q0[evals as int]);
            assert(queue@ =~= q0.skip(evals + 1));
        }
        let ghost prev_batch = batch@;
        let ghost prev_visited = visited@;
        let in_range = chunk_in_range(chunk, center, LOAD_RADIUS);
        let mut spawn = false;
        if in_range {
            visited.insert(chunk);
            spawn = has_asteroid(chunk);
            if spawn {
                batch.push(chunk);
            }
        }
        proof {
            let old_ans = ans;
            ans = ans.push(spawn);
            let s = q0.take(evals + 1);
            assert(s.drop_last() =~= q0.take(evals as int));
            assert(s.last() == chunk);
            assert(ans.drop_last() =~= old_ans);
            lemma_gate_batch_prefix(q0.take(evals as int), old_ans, ans, center);
            assert(prev_batch == gate_batch(s.drop_last(), ans, center));
            assert(ans[s.len() - 1] == spawn);
            assert(batch@ == gate_batch(s, ans, center));
            assert forall|c: ChunkCoord| #[trigger] gate_evaluated(s, center).contains(c)
                == (gate_evaluated(q0.take(evals as int), center).contains(c) || (c == chunk && in_range)) by {
                if s.contains(c) && c != chunk {
                    let j = choose|j: int| 0 <= j < s.len() && s[j] == c;
                    assert(q0.take(evals as int)[j] == c);
                }
                if q0.take(evals as int).contains(c) {
                    let j = choose|j: int| 0 <= j < evals && q0.take(evals as int)[j] == c;
                    assert(s[j] == c);
                }
                if c == chunk {
                    assert(s[evals as int] == c);
                }
            }
            assert(visited@ =~= v0.union(gate_evaluated(s, center)));
        }
        evals = evals + 1;
        if batch.len() == MAX_SPAWNS_PER_FRAME {
            break;
        }
    }
    batch
}

/// `gate_batch` reads only the answers of the chunks it is given.
proof fn lemma_gate_batch_prefix(q: Seq<ChunkCoord>, a1: Seq<bool>, a2: Seq<bool>, center: ChunkCoord)
    requires
        q.len() <= a1.len(),
        q.len() <= a2.len(),
        forall|i: int| 0 <= i < q.len() ==> a1[i] == a2[i],
    ensures
        gate_batch(q, a1, center) == gate_batch(q, a2, center),
    decreases q.len(),
{
    if q.len() > 0 {
        lemma_gate_batch_prefix(q.drop_last(), a1, a2, center);
    }
}

/// A queued chunk that `select_spawn_batch` drops as stale (outside the load range of
/// the ship at that frame) is not marked visited, so whenever a later
/// listing of missing chunks covers it again, it is offered again.
pub proof fn lemma_stale_chunk_offered_again(
    visited: Set<ChunkCoord>,
    popped: Seq<ChunkCoord>,
    center: ChunkCoord,
    chunk: ChunkCoord,
    later_center: ChunkCoord,
    radius: int,
    listing: Seq<ChunkCoord>,
)
    requires
        !visited.contains(chunk),
        !in_load_range(chunk, center),
        in_sphere(later_center, radius, chunk),
        is_missing_listing(later_center, radius, visited.union(gate_evaluated(popped, center)), listing),
    ensures
        listing.contains(chunk),
{
    assert(!gate_evaluated(popped, center).contains(chunk));
}

/// What becomes of a loose crystal this frame.
#[derive(Clone, Copy, Debug, PartialEq, Eq, Structural)]
pub enum CrystalFate {
    /// It is within reach of the ship and feeds it energy this frame.
    Feeding,
    /// It drifted out of the load radius: it is despawned.
    Lost,
    /// It stays in the world without effect.
    Kept,
}

/// Decide a crystal's fate from whether it is within reach of the ship and
/// from the chunks the crystal and the ship are in. A crystal within reach
/// feeds the ship; otherwise one outside the load radius is lost.
pub fn crystal_fate(within_reach: bool, crystal_chunk: ChunkCoord, ship_chunk: ChunkCoord) -> (f: CrystalFate)
    ensures
        within_reach ==> f == CrystalFate::Feeding,
        !within_reach && !in_load_range(crystal_chunk, ship_chunk) ==> f == CrystalFate::Lost,
        !within_reach && in_load_range(crystal_chunk, ship_chunk) ==> f == CrystalFate::Kept,
{
    if within_reach {
        CrystalFate::Feeding
    } else if !chunk_in_range(crystal_chunk, ship_chunk, LOAD_RADIUS) {
        CrystalFate::Lost
    } else {
        CrystalFate::Kept
    }
}

} // verus!
