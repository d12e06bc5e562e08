use std::collections::HashSet;

use vstd::prelude::*;

use vstd::arithmetic::div_mod::{lemma_div_denominator, lemma_fundamental_div_mod, lemma_fundamental_div_mod_converse};

use crate::chunks::{
    chunk_in_range, chunks_in_sphere, in_sphere, is_sphere_listing, sphere_fits, strictly_sorted,
    ChunkCoord,
};

verus! {

broadcast use vstd::std_specs::hash::group_hash_axioms;

/// `2³¹`: shifts an `i32` into `[0, 2³²)`.
pub const KEY_BIAS: i64 = 0x8000_0000;

/// Packs a chunk coordinate into one `u128` hash key: each axis, shifted into
/// `[0, 2³²)`, occupies its own 32-bit lane.
pub open spec fn chunk_key(c: ChunkCoord) -> u128 {
    ((c.x + 0x8000_0000) * 0x1_0000_0000_0000_0000 + (c.y + 0x8000_0000) * 0x1_0000_0000
        + (c.z + 0x8000_0000)) as u128
}

/// Distinct chunks have distinct keys.
pub proof fn lemma_chunk_key_injective(a: ChunkCoord, b: ChunkCoord)
    ensures
        chunk_key(a) == chunk_key(b) ==> a == b,
{
}

/// The hash key of a chunk (see `chunk_key`).
pub fn chunk_key_of(c: ChunkCoord) -> (k: u128)
    ensures
        k == chunk_key(c),
{
    let x = (c.x as i64 + KEY_BIAS) as u128;
    let y = (c.y as i64 + KEY_BIAS) as u128;
    let z = (c.z as i64 + KEY_BIAS) as u128;
    x * 0x1_0000_0000_0000_0000 + y * 0x1_0000_0000 + z
}

/// Set of chunk coordinates (in chunk-space) that have already been visited
/// and populated.
pub struct VisitedChunks {
    keys: HashSet<u128>,
}

impl View for VisitedChunks {
    type V = Set<ChunkCoord>;

    closed spec fn view(&self) -> Set<ChunkCoord> {
        Set::new(|c: ChunkCoord| self.keys@.contains(chunk_key(c)))
    }
}

impl VisitedChunks {
    /// An empty set.
    pub fn new() -> (s: Self)
        ensures
            s@ == Set::<ChunkCoord>::empty(),
    {
        let s = VisitedChunks { keys: HashSet::new() };
        assert(s@ =~= Set::<ChunkCoord>::empty());
        s
    }

    /// Whether `chunk` was visited.
    pub fn contains(&self, chunk: ChunkCoord) -> (r: bool)
        ensures
            r == self@.contains(chunk),
    {
        let k = chunk_key_of(chunk);
        self.keys.contains(&k)
    }

    /// Mark `chunk` visited; returns whether it was new.
    pub fn insert(&mut self, chunk: ChunkCoord) -> (r: bool)
        ensures
            final(self)@ == old(self)@.insert(chunk),
            r == !old(self)@.contains(chunk),
    {
        let k = chunk_key_of(chunk);
        let r = self.keys.insert(k);
        proof {
            assert forall|c: ChunkCoord| #[trigger] self@.contains(c) == old(self)@.insert(chunk).contains(c) by {
                lemma_chunk_key_injective(c, chunk);
            }
            assert(self@ =~= old(self)@.insert(chunk));
        }
        r
    }

    /// Forget `chunk`; returns whether it was present.
    pub fn remove(&mut self, chunk: ChunkCoord) -> (r: bool)
        ensures
            final(self)@ == old(self)@.remove(chunk),
            r == old(self)@.contains(chunk),
    {
        let k = chunk_key_of(chunk);
        let r = self.keys.remove(&k);
        proof {
            assert forall|c: ChunkCoord| #[trigger] self@.contains(c) == old(self)@.remove(chunk).contains(c) by {
                lemma_chunk_key_injective(c, chunk);
            }
            assert(self@ =~= old(self)@.remove(chunk));
        }
        r
    }

    /// Forget every chunk.
    pub fn clear(&mut self)
        ensures
            final(self)@ == Set::<ChunkCoord>::empty(),
    {
        self.keys.clear();
        assert(self@ =~= Set::<ChunkCoord>::empty());
    }

    /// Forget every chunk farther than `radius` chunks from `center`; the
    /// chunks within the ball stay.
    pub fn retain_within(&mut self, center: ChunkCoord, radius: i32)
        ensures
            final(self)@ == old(self)@.filter(|c: ChunkCoord| in_sphere(center, radius as int, c)),
    {
        let ghost old_view = self@;
        let mut kept = VisitedChunks::new();
        let keys_iter = self.keys.iter();
        proof {
            vstd::std_specs::hash::axiom_spec_hash_keys_iter(&self.keys);
            let all = vstd::std_specs::iter::IteratorSpec::remaining(&keys_iter);
            assert(all.skip(0) =~= all);
            assert forall|c: ChunkCoord| #[trigger] old_view.contains(c) implies all.skip(0).contains(&chunk_key(c)) by {
                assert(all.unref().to_set().contains(chunk_key(c)));
                let j = choose|j: int| 0 <= j < all.unref().len() && all.unref()[j] == chunk_key(c);
                assert(all[j] == &chunk_key(c));
            }
            assert forall|i: int| 0 <= i < all.len() implies self.keys@.contains(*#[trigger] all[i]) by {
                assert(all.unref()[i] == *all[i]);
                assert(all.unref().to_set().contains(*all[i]));
            }
        }
        for k in it: keys_iter
            invariant
                self@ == old_view,
                forall|i: int| 0 <= i < it.seq().len() ==> self.keys@.contains(*#[trigger] it.seq()[i]),
                forall|c: ChunkCoord| #[trigger] kept@.contains(c) ==> old_view.contains(c)
                    && in_sphere(center, radius as int, c),
                forall|c: ChunkCoord| #[trigger] old_view.contains(c) && in_sphere(center, radius as int, c)
                    && !kept@.contains(c) ==> it.seq().skip(it.index() as int).contains(&chunk_key(c)),
        {
            let ghost before = kept@;
            match chunk_of_key(*k) {
                Some(c) => {
                    if radius >= 0 && chunk_in_range(c, center, radius) {
                        kept.insert(c);
                    }
                },
                None => {},
            }
            proof {
                let rest = it.seq().skip(it.index() as int);
                let next = it.seq().skip(it.index() + 1);
                assert(rest[0] == k);
                assert(rest =~= seq![k].add(next));
                assert forall|d: ChunkCoord| #[trigger] old_view.contains(d) && in_sphere(center, radius as int, d)
                    && !kept@.contains(d) implies next.contains(&chunk_key(d)) by {
                    assert(rest.contains(&chunk_key(d)));
                    if chunk_key(d) == *k {
                        lemma_chunk_key_injective(d, d);
                        assert(false);
                    }
                    let j = choose|j: int| 0 <= j < rest.len() && rest[j] == &chunk_key(d);
                    assert(j > 0);
                    assert(next[j - 1] == &chunk_key(d));
                }
                assert forall|d: ChunkCoord| #[trigger] kept@.contains(d) implies old_view.contains(d)
                    && in_sphere(center, radius as int, d) by {
                    if !before.contains(d) {
                        assert(self.keys@.contains(*k));
                    }
                }
            }
        }
        proof {
            let target = old_view.filter(|c: ChunkCoord| in_sphere(center, radius as int, c));
            assert forall|c: ChunkCoord| #[trigger] kept@.contains(c) == target.contains(c) by {
                if target.contains(c) && !kept@.contains(c) {
                    assert(old_view.contains(c) && in_sphere(center, radius as int, c));
                }
            }
            assert(kept@ =~= target);
        }
        *self = kept;
    }
}

/// The chunk whose key is `k`, if `k` is the key of a chunk.
fn chunk_of_key(k: u128) -> (r: Option<ChunkCoord>)
    ensures
        match r {
            Some(c) => chunk_key(c) == k,
            None => forall|c: ChunkCoord| chunk_key(c) != k,
        },
{
    let x = k / 0x1_0000_0000_0000_0000;
    let y = (k / 0x1_0000_0000) % 0x1_0000_0000;
    let z = k % 0x1_0000_0000;
    if x >= 0x1_0000_0000 {
        proof {
            assert forall|c: ChunkCoord| chunk_key(c) != k by {
                lemma_chunk_key_lanes(c);
            }
        }
        return None;
    }
    let c = ChunkCoord::new(
        (x as i64 - KEY_BIAS) as i32,
        (y as i64 - KEY_BIAS) as i32,
        (z as i64 - KEY_BIAS) as i32,
    );
    proof {
        lemma_key_of_lanes(k);
        lemma_chunk_key_lanes(c);
    }
    Some(c)
}

/// The three 32-bit lanes of a chunk key hold the biased coordinates.
proof fn lemma_chunk_key_lanes(c: ChunkCoord)
    ensures
        chunk_key(c) % 0x1_0000_0000 == c.z + 0x8000_0000,
        (chunk_key(c) / 0x1_0000_0000) % 0x1_0000_0000 == c.y + 0x8000_0000,
        chunk_key(c) / 0x1_0000_0000_0000_0000 == c.x + 0x8000_0000,
{
    let b: int = 0x1_0000_0000;
    let xl = c.x + 0x8000_0000;
    let yl = c.y + 0x8000_0000;
    let zl = c.z + 0x8000_0000;
    let k = chunk_key(c) as int;
    assert(k == (xl * b + yl) * b + zl);
    lemma_fundamental_div_mod_converse(k, b, xl * b + yl, zl);
    lemma_fundamental_div_mod_converse(xl * b + yl, b, xl, yl);
    lemma_fundamental_div_mod_converse(k, b * b, xl, yl * b + zl);
}

/// A key is determined by its three lanes.
proof fn lemma_key_of_lanes(k: u128)
    ensures
        k == (k / 0x1_0000_0000_0000_0000) * 0x1_0000_0000_0000_0000
            + ((k / 0x1_0000_0000) % 0x1_0000_0000) * 0x1_0000_0000 + k % 0x1_0000_0000,
{
    let b: int = 0x1_0000_0000;
    let ki = k as int;
    lemma_fundamental_div_mod(ki, b);
    lemma_fundamental_div_mod(ki / b, b);
    lemma_div_denominator(ki, b, b);
}

/// `s` lists exactly the chunks of the ball of `radius` around `center` that
/// are not in `visited`, in strictly increasing lexicographic order.
pub open spec fn is_missing_listing(center: ChunkCoord, radius: int, visited: Set<ChunkCoord>, s: Seq<ChunkCoord>) -> bool {
    &&& strictly_sorted(s)
    &&& forall|i: int| 0 <= i < s.len() ==> in_sphere(center, radius, #[trigger] s[i]) && !visited.contains(s[i])
    &&& forall|c: ChunkCoord| in_sphere(center, radius, c) && !visited.contains(c) ==> #[trigger] s.contains(c)
}

/// Return chunk coords within `radius` chunks of `center` that have not yet
/// been visited, ordered by x, then y, then z.
pub fn missing_chunks(center: ChunkCoord, radius: i32, visited: &VisitedChunks) -> (res: Vec<
    ChunkCoord,
>)
    requires
        sphere_fits(center, radius),
    ensures
        is_missing_listing(center, radius as int, visited@, res@),
{
    let ball = chunks_in_sphere(center, radius);
    let mut res: Vec<ChunkCoord> = Vec::new();
    let mut i: usize = 0;
    while i < ball.len()
        invariant
            i <= ball.len(),
            is_sphere_listing(center, radius as int, ball@),
            strictly_sorted(res@),
            forall|k: int|
                0 <= k < res.len() ==> in_sphere(center, radius as int, #[trigger] res@[k])
                    && !visited@.contains(res@[k]),
            forall|k: int| 0 <= k < res.len() ==> exists|j: int| 0 <= j < i && #[trigger] res@[k] == ball@[j],
            forall|j: int| 0 <= j < i && !visited@.contains(ball@[j]) ==> #[trigger] res@.contains(ball@[j]),
        decreases ball.len() - i,
    {
        let c = ball[i];
        if !visited.contains(c) {
            let ghost old_res = res@;
            res.push(c);
            proof {
                assert forall|a: int, b: int| 0 <= a < b < res@.len() implies crate::chunks::chunk_lt(#[trigger] res@[a], #[trigger] res@[b]) by {
                    if b == old_res.len() {
                        let j = choose|j: int| 0 <= j < i && old_res[a] == ball@[j];
                        assert(crate::chunks::chunk_lt(ball@[j], ball@[i as int]));
                    } else {
                        assert(old_res[a] == res@[a] && old_res[b] == res@[b]);
                    }
                }
                assert forall|k: int| 0 <= k < res.len() implies exists|j: int| 0 <= j < i + 1 && #[trigger] res@[k] == ball@[j] by {
                    if k == old_res.len() {
                        assert(res@[k] == ball@[i as int]);
                    } else {
                        assert(res@[k] == old_res[k]);
                    }
                }
                assert forall|j: int| 0 <= j < i + 1 && !visited@.contains(ball@[j]) implies #[trigger] res@.contains(ball@[j]) by {
                    if j == i {
                        assert(res@[old_res.len() as int] == ball@[j]);
                    } else {
                        assert(old_res.contains(ball@[j]));
                        let k = choose|k: int| 0 <= k < old_res.len() && old_res[k] == ball@[j];
                        assert(res@[k] == ball@[j]);
                    }
                }
            }
        }
        i = i + 1;
    }
    proof {
        assert forall|c: ChunkCoord| in_sphere(center, radius as int, c) && !visited@.contains(c)
            implies #[trigger] res@.contains(c) by {
            assert(ball@.contains(c));
            let j = choose|j: int| 0 <= j < ball@.len() && ball@[j] == c;
            assert(!visited@.contains(ball@[j]));
        }
    }
    res
}

/// With nothing visited, the missing chunks are the whole ball.
pub proof fn lemma_missing_nothing_visited(center: ChunkCoord, radius: int, s: Seq<ChunkCoord>, ball: Seq<ChunkCoord>)
    requires
        is_missing_listing(center, radius, Set::empty(), s),
        is_sphere_listing(center, radius, ball),
    ensures
        s == ball,
{
    assert forall|c: ChunkCoord| s.contains(c) <==> ball.contains(c) by {
        if s.contains(c) {
            let i = choose|i: int| 0 <= i < s.len() && s[i] == c;
            assert(in_sphere(center, radius, s[i]));
        }
        if ball.contains(c) {
            let i = choose|i: int| 0 <= i < ball.len() && ball[i] == c;
            assert(in_sphere(center, radius, ball[i]));
        }
    }
    crate::chunks::lemma_strictly_sorted_unique(s, ball);
}

/// Once the whole ball is visited nothing is missing.
pub proof fn lemma_missing_all_visited(center: ChunkCoord, radius: int, visited: Set<ChunkCoord>, s: Seq<ChunkCoord>)
    requires
        is_missing_listing(center, radius, visited, s),
        forall|c: ChunkCoord| in_sphere(center, radius, c) ==> visited.contains(c),
    ensures
        s.len() == 0,
{
    if s.len() > 0 {
        assert(in_sphere(center, radius, s[0]) && !visited.contains(s[0]));
    }
}

} // verus!
