use vstd::prelude::*;

use crate::hash::{mul_mod64, splitmix64, splitmix64_spec};

verus! {

/// Side length of one chunk in world units.
pub const CHUNK_SIZE: i32 = 64;

/// Radius (in chunks) of the loaded sphere around the player.
pub const LOAD_RADIUS: i32 = 8;

/// Radius (in chunks) past which spawned asteroids are despawned and visited
/// chunks forgotten; larger than `LOAD_RADIUS` so that the border does not
/// thrash while the ship hovers near it.
pub const UNLOAD_RADIUS: i32 = 10;

/// Largest per-axis offset, in world units, of an asteroid from its chunk
/// centre: `CHUNK_SIZE / 2` minus the asteroid half extent (32 − 8).
pub const SPAWN_SAFE_RANGE: i32 = 24;

/// Integer chunk coordinate (chunk-space, not world units).
#[derive(Clone, Copy, Debug, PartialEq, Eq, Hash, Structural)]
pub struct ChunkCoord {
    pub x: i32,
    pub y: i32,
    pub z: i32,
}

impl ChunkCoord {
    pub fn new(x: i32, y: i32, z: i32) -> (c: ChunkCoord)
        ensures
            c.x == x,
            c.y == y,
            c.z == z,
    {
        ChunkCoord { x, y, z }
    }
}

/// Squared Euclidean distance between two chunk coordinates.
pub open spec fn dist2(a: ChunkCoord, b: ChunkCoord) -> int {
    (a.x - b.x) * (a.x - b.x) + (a.y - b.y) * (a.y - b.y) + (a.z - b.z) * (a.z - b.z)
}

/// `c` lies in the closed Euclidean ball of `radius` chunks around `center`.
/// A negative radius describes an empty ball.
pub open spec fn in_sphere(center: ChunkCoord, radius: int, c: ChunkCoord) -> bool {
    radius >= 0 && dist2(c, center) <= radius * radius
}

/// Lexicographic order on `(x, y, z)`.
pub open spec fn chunk_lt(a: ChunkCoord, b: ChunkCoord) -> bool {
    a.x < b.x || (a.x == b.x && (a.y < b.y || (a.y == b.y && a.z < b.z)))
}

/// A sequence of chunks that is strictly increasing in lexicographic order
/// (in particular it holds no chunk twice).
pub open spec fn strictly_sorted(s: Seq<ChunkCoord>) -> bool {
    forall|i: int, j: int| 0 <= i < j < s.len() ==> chunk_lt(#[trigger] s[i], #[trigger] s[j])
}

/// Whether `chunk` lies within `radius` chunks of `center` (inclusive).
pub fn chunk_in_range(chunk: ChunkCoord, center: ChunkCoord, radius: i32) -> (r: bool)
    ensures
        r == (dist2(chunk, center) <= radius * radius),
{
    let dx = chunk.x as i128 - center.x as i128;
    let dy = chunk.y as i128 - center.y as i128;
    let dz = chunk.z as i128 - center.z as i128;
    assert(0 <= dx * dx <= 0x1_0000_0000_0000_0000) by (nonlinear_arith)
        requires -0x1_0000_0000 <= dx <= 0x1_0000_0000;
    assert(0 <= dy * dy <= 0x1_0000_0000_0000_0000) by (nonlinear_arith)
        requires -0x1_0000_0000 <= dy <= 0x1_0000_0000;
    assert(0 <= dz * dz <= 0x1_0000_0000_0000_0000) by (nonlinear_arith)
        requires -0x1_0000_0000 <= dz <= 0x1_0000_0000;
    let r = radius as i128;
    assert(0 <= r * r <= 0x1_0000_0000_0000_0000) by (nonlinear_arith)
        requires -0x1_0000_0000 <= r <= 0x1_0000_0000;
    dx * dx + dy * dy + dz * dz <= r * r
}

/// Combine world seed and chunk coordinates into one base hash.
pub open spec fn chunk_hash_base_spec(world_seed: u64, chunk: ChunkCoord) -> u64 {
    let ax = mul_mod64(chunk.x as u64, 0x9e3779b97f4a7c15);
    let ay = mul_mod64(chunk.y as u64, 0x6c62272e07bb0142);
    let az = mul_mod64(chunk.z as u64, 0x4d2c6dfc5ac42aad);
    splitmix64_spec(
        vstd::wrapping::u64_specs::wrapping_add(
            vstd::wrapping::u64_specs::wrapping_add(
                vstd::wrapping::u64_specs::wrapping_add(world_seed, ax),
                ay,
            ),
            az,
        ),
    )
}

/// Combine world seed and chunk coordinates into one u64 base hash.
/// Each axis is multiplied by a distinct irrational-derived constant
/// (φ, π, e scaled to u64) so that chunks differing on only one axis
/// produce unrelated sums before the `splitmix64` avalanche pass.
pub fn chunk_hash_base(world_seed: u64, chunk: ChunkCoord) -> (h: u64)
    ensures
        h == chunk_hash_base_spec(world_seed, chunk),
{
    splitmix64(
        world_seed.wrapping_add((chunk.x as u64).wrapping_mul(0x9e3779b97f4a7c15)).wrapping_add(
            (chunk.y as u64).wrapping_mul(0x6c62272e07bb0142),
        ).wrapping_add((chunk.z as u64).wrapping_mul(0x4d2c6dfc5ac42aad)),
    )
}

/// The spawn roll of a chunk: the top 24 bits of its base hash. Divided by
/// 2²⁴ it is a uniform number in `[0, 1)` that is compared with the chunk's
/// asteroid density.
pub fn chunk_spawn_roll(world_seed: u64, chunk: ChunkCoord) -> (r: u32)
    ensures
        r == chunk_hash_base_spec(world_seed, chunk) >> 40u64,
        r < 0x100_0000,
{
    let h = chunk_hash_base(world_seed, chunk);
    assert(h >> 40u64 < 0x100_0000u64) by (bit_vector);
    (h >> 40) as u32
}

/// Exclusive upper bound of the crystal roll (top 24 bits of a hash word)
/// for an asteroid that carries crystals: `roll / 2²⁴ < 0.01` (the 1 % crystal
/// chance as an `f32`) holds exactly for `roll < 167_773`.
pub const CRYSTAL_ROLL_LIMIT: u64 = 167_773;

/// Every per-asteroid seed derived from one chunk hash `h`.
#[derive(Clone, Copy, Debug, PartialEq, Eq)]
pub struct AsteroidSeeds {
    /// Hash words for the x/y/z spawn offset from the chunk centre.
    pub offset_words: [u64; 3],
    /// Hash words for the x/y/z initial angular velocity.
    pub spin_words: [u64; 3],
    /// Seed of the voxel colour generator.
    pub color_seed: u64,
    /// Seed of the mineral count and selection.
    pub mineral_seed: u64,
    /// Seed of the surface noise.
    pub noise_seed: u64,
    /// Seed of the per-axis scale.
    pub scale_seed: u64,
    /// Whether the asteroid carries crystal deposits.
    pub has_crystals: bool,
}

/// `h + k` modulo 2⁶⁴.
pub open spec fn hash_lane(h: u64, k: u64) -> u64 {
    vstd::wrapping::u64_specs::wrapping_add(h, k)
}

/// Derive the seeds of an asteroid from its chunk hash `h`. Lanes 0–2 feed
/// the spawn offset, 3–5 the spin, 6 the colours, 7 the minerals, 8 the
/// crystal roll, 9 the surface noise and 10 the axis scale, so that no two
/// properties share a random stream.
pub fn asteroid_seeds(h: u64) -> (s: AsteroidSeeds)
    ensures
        s.offset_words[0] == splitmix64_spec(hash_lane(h, 0)),
        s.offset_words[1] == splitmix64_spec(hash_lane(h, 1)),
        s.offset_words[2] == splitmix64_spec(hash_lane(h, 2)),
        s.spin_words[0] == splitmix64_spec(hash_lane(h, 3)),
        s.spin_words[1] == splitmix64_spec(hash_lane(h, 4)),
        s.spin_words[2] == splitmix64_spec(hash_lane(h, 5)),
        s.color_seed == hash_lane(h, 6),
        s.mineral_seed == hash_lane(h, 7),
        s.noise_seed == hash_lane(h, 9),
        s.scale_seed == hash_lane(h, 10),
        s.has_crystals == (splitmix64_spec(hash_lane(h, 8)) >> 40u64 < CRYSTAL_ROLL_LIMIT),
{
    let offset_words = [
        splitmix64(h.wrapping_add(0)),
        splitmix64(h.wrapping_add(1)),
        splitmix64(h.wrapping_add(2)),
    ];
    let spin_words = [
        splitmix64(h.wrapping_add(3)),
        splitmix64(h.wrapping_add(4)),
        splitmix64(h.wrapping_add(5)),
    ];
    let crystal_roll = splitmix64(h.wrapping_add(8)) >> 40;
    AsteroidSeeds {
        offset_words,
        spin_words,
        color_seed: h.wrapping_add(6),
        mineral_seed: h.wrapping_add(7),
        noise_seed: h.wrapping_add(9),
        scale_seed: h.wrapping_add(10),
        has_crystals: crystal_roll < CRYSTAL_ROLL_LIMIT,
    }
}

/// The offset of `c` from `center` comes lexicographically before `(dx, dy, dz)`.
pub open spec fn offset_before(center: ChunkCoord, c: ChunkCoord, dx: int, dy: int, dz: int) -> bool {
    let ox = c.x - center.x;
    let oy = c.y - center.y;
    let oz = c.z - center.z;
    ox < dx || (ox == dx && (oy < dy || (oy == dy && oz < dz)))
}

/// The ball of `radius` around `center` fits in `i32` coordinates and its
/// squared offsets fit in `i32` arithmetic.
pub open spec fn sphere_fits(center: ChunkCoord, radius: i32) -> bool {
    &&& radius * radius <= 715_827_882
    &&& i32::MIN <= center.x - radius && center.x + radius <= i32::MAX
    &&& i32::MIN <= center.y - radius && center.y + radius <= i32::MAX
    &&& i32::MIN <= center.z - radius && center.z + radius <= i32::MAX
}

/// Whether the ball of `radius` around `center` can be listed (see
/// `sphere_fits`).
pub fn sphere_fits_check(center: ChunkCoord, radius: i32) -> (r: bool)
    ensures
        r == sphere_fits(center, radius),
{
    let r = radius as i64;
    assert(0 <= r * r <= 0x4000_0000_0000_0000) by (nonlinear_arith)
        requires -0x8000_0000 <= r <= 0x8000_0000;
    let r2: i64 = r * r;
    r2 <= 715_827_882
        && i32::MIN as i64 <= center.x as i64 - r && center.x as i64 + r <= i32::MAX as i64
        && i32::MIN as i64 <= center.y as i64 - r && center.y as i64 + r <= i32::MAX as i64
        && i32::MIN as i64 <= center.z as i64 - r && center.z as i64 + r <= i32::MAX as i64
}

/// `s` lists exactly the chunks of the ball of `radius` around `center`,
/// in strictly increasing lexicographic order.
pub open spec fn is_sphere_listing(center: ChunkCoord, radius: int, s: Seq<ChunkCoord>) -> bool {
    &&& strictly_sorted(s)
    &&& forall|i: int| 0 <= i < s.len() ==> in_sphere(center, radius, #[trigger] s[i])
    &&& forall|c: ChunkCoord| in_sphere(center, radius, c) ==> #[trigger] s.contains(c)
}

proof fn lemma_square_bound(d: int, r: int)
    requires
        -r <= d <= r,
    ensures
        0 <= d * d <= r * r,
{
    assert(0 <= d * d <= r * r) by (nonlinear_arith)
        requires -r <= d <= r;
}

/// A chunk with an axis offset larger than `r` lies outside the ball.
proof fn lemma_outside_sphere(center: ChunkCoord, r: int, c: ChunkCoord)
    requires
        0 <= r,
        c.x - center.x < -r || c.x - center.x > r || c.y - center.y < -r || c.y - center.y > r
            || c.z - center.z < -r || c.z - center.z > r,
    ensures
        !in_sphere(center, r, c),
{
    let a = c.x - center.x;
    let b = c.y - center.y;
    let d = c.z - center.z;
    assert(a * a + b * b + d * d > r * r) by (nonlinear_arith)
        requires
            0 <= r,
            a < -r || a > r || b < -r || b > r || d < -r || d > r;
}

/// Return all chunk coords within `radius` chunks of `center` (inclusive,
/// Euclidean sphere), ordered by x, then y, then z.
pub fn chunks_in_sphere(center: ChunkCoord, radius: i32) -> (res: Vec<ChunkCoord>)
    requires
        sphere_fits(center, radius),
    ensures
        is_sphere_listing(center, radius as int, res@),
{
    let mut res: Vec<ChunkCoord> = Vec::new();
    if radius < 0 {
        return res;
    }
    assert(radius <= 26_754) by (nonlinear_arith)
        requires 0 <= radius, radius * radius <= 715_827_882;
    let r2 = radius * radius;
    let mut dx: i32 = -radius;
    proof {
        assert forall|c: ChunkCoord| in_sphere(center, radius as int, c) && c.x < center.x + dx
            implies #[trigger] res@.contains(c) by {
            lemma_outside_sphere(center, radius as int, c);
        }
    }
    while dx <= radius
        invariant
            0 <= radius <= 26_754,
            sphere_fits(center, radius),
            r2 == radius * radius,
            -radius <= dx <= radius + 1,
            strictly_sorted(res@),
            forall|i: int| 0 <= i < res.len() ==> in_sphere(center, radius as int, #[trigger] res@[i])
                && res@[i].x < center.x + dx,
            forall|c: ChunkCoord| in_sphere(center, radius as int, c) && c.x < center.x + dx
                ==> #[trigger] res@.contains(c),
        decreases radius + 1 - dx,
    {
        let mut dy: i32 = -radius;
        proof {
            assert forall|c: ChunkCoord| in_sphere(center, radius as int, c)
                && (c.x < center.x + dx || (c.x == center.x + dx && c.y < center.y + dy))
                implies #[trigger] res@.contains(c) by {
                if c.x == center.x + dx {
                    lemma_outside_sphere(center, radius as int, c);
                }
            }
        }
        while dy <= radius
            invariant
                0 <= radius <= 26_754,
                sphere_fits(center, radius),
                r2 == radius * radius,
                -radius <= dx <= radius,
                -radius <= dy <= radius + 1,
                strictly_sorted(res@),
                forall|i: int| 0 <= i < res.len() ==> in_sphere(center, radius as int, #[trigger] res@[i])
                    && (res@[i].x < center.x + dx || (res@[i].x == center.x + dx && res@[i].y < center.y + dy)),
                forall|c: ChunkCoord| in_sphere(center, radius as int, c)
                    && (c.x < center.x + dx || (c.x == center.x + dx && c.y < center.y + dy))
                    ==> #[trigger] res@.contains(c),
            decreases radius + 1 - dy,
        {
            let mut dz: i32 = -radius;
            proof {
                assert forall|c: ChunkCoord| in_sphere(center, radius as int, c)
                    && offset_before(center, c, dx as int, dy as int, dz as int)
                    implies #[trigger] res@.contains(c) by {
                    if c.x == center.x + dx && c.y == center.y + dy {
                        lemma_outside_sphere(center, radius as int, c);
                    }
                }
            }
            while dz <= radius
                invariant
                    0 <= radius <= 26_754,
                    sphere_fits(center, radius),
                    r2 == radius * radius,
                    -radius <= dx <= radius,
                    -radius <= dy <= radius,
                    -radius <= dz <= radius + 1,
                    strictly_sorted(res@),
                    forall|i: int| 0 <= i < res.len() ==> in_sphere(center, radius as int, #[trigger] res@[i])
                        && offset_before(center, res@[i], dx as int, dy as int, dz as int),
                    forall|c: ChunkCoord| in_sphere(center, radius as int, c)
                        && offset_before(center, c, dx as int, dy as int, dz as int)
                        ==> #[trigger] res@.contains(c),
                decreases radius + 1 - dz,
            {
                proof {
                    lemma_square_bound(dx as int, radius as int);
                    lemma_square_bound(dy as int, radius as int);
                    lemma_square_bound(dz as int, radius as int);
                }
                let here = ChunkCoord { x: center.x + dx, y: center.y + dy, z: center.z + dz };
                if dx * dx + dy * dy + dz * dz <= r2 {
                    let ghost old_res = res@;
                    res.push(here);
                    proof {
                        assert(res@[old_res.len() as int] == here);
                        assert forall|c: ChunkCoord| in_sphere(center, radius as int, c)
                            && offset_before(center, c, dx as int, dy as int, dz + 1)
                            implies #[trigger] res@.contains(c) by {
                            if c == here {
                                assert(res@[old_res.len() as int] == c);
                            } else {
                                assert(old_res.contains(c));
                                let k = choose|k: int| 0 <= k < old_res.len() && old_res[k] == c;
                                assert(res@[k] == c);
                            }
                        }
                    }
                } else {
                    proof {
                        assert forall|c: ChunkCoord| in_sphere(center, radius as int, c)
                            && offset_before(center, c, dx as int, dy as int, dz + 1)
                            implies #[trigger] res@.contains(c) by {
                            if c == here {
                                assert(dist2(c, center) == dx * dx + dy * dy + dz * dz);
                            }
                        }
                    }
                }
                dz = dz + 1;
            }
            proof {
                assert forall|c: ChunkCoord| in_sphere(center, radius as int, c)
                    && (c.x < center.x + dx || (c.x == center.x + dx && c.y < center.y + dy + 1))
                    implies #[trigger] res@.contains(c) by {
                    if c.x == center.x + dx && c.y == center.y + dy && c.z >= center.z + dz {
                        lemma_outside_sphere(center, radius as int, c);
                    } else {
                        assert(offset_before(center, c, dx as int, dy as int, dz as int));
                    }
                }
            }
            dy = dy + 1;
        }
        proof {
            assert forall|c: ChunkCoord| in_sphere(center, radius as int, c) && c.x < center.x + dx + 1
                implies #[trigger] res@.contains(c) by {
                if c.x == center.x + dx && c.y >= center.y + dy {
                    lemma_outside_sphere(center, radius as int, c);
                }
            }
        }
        dx = dx + 1;
    }
    proof {
        assert forall|c: ChunkCoord| in_sphere(center, radius as int, c)
            implies #[trigger] res@.contains(c) by {
            if c.x >= center.x + dx {
                lemma_outside_sphere(center, radius as int, c);
            }
        }
    }
    res
}

/// Two strictly sorted sequences with the same elements are equal.
pub proof fn lemma_strictly_sorted_unique(s1: Seq<ChunkCoord>, s2: Seq<ChunkCoord>)
    requires
        strictly_sorted(s1),
        strictly_sorted(s2),
        forall|c: ChunkCoord| s1.contains(c) <==> s2.contains(c),
    ensures
        s1 == s2,
    decreases s1.len(),
{
    if s1.len() == 0 {
        if s2.len() > 0 {
            assert(s2.contains(s2[0]));
        }
        assert(s1 =~= s2);
    } else {
        assert(s1.contains(s1[0]));
        assert(s2.len() > 0);
        assert(s2.contains(s2[0]));
        let a = s1[0];
        let b = s2[0];
        // both heads are the least element of the common set
        if a != b {
            assert(s2.contains(a));
            let j = choose|j: int| 0 <= j < s2.len() && s2[j] == a;
            assert(s1.contains(b));
            let k = choose|k: int| 0 <= k < s1.len() && s1[k] == b;
            assert(j > 0 && k > 0);
            assert(chunk_lt(s2[0], s2[j]));
            assert(chunk_lt(s1[0], s1[k]));
        }
        let t1 = s1.drop_first();
        let t2 = s2.drop_first();
        assert forall|c: ChunkCoord| t1.contains(c) <==> t2.contains(c) by {
            if t1.contains(c) {
                let i = choose|i: int| 0 <= i < t1.len() && t1[i] == c;
                assert(s1[i + 1] == c);
                assert(chunk_lt(s1[0], s1[i + 1]));
                assert(s2.contains(c));
                let j = choose|j: int| 0 <= j < s2.len() && s2[j] == c;
                assert(j != 0);
                assert(t2[j - 1] == c);
            }
            if t2.contains(c) {
                let i = choose|i: int| 0 <= i < t2.len() && t2[i] == c;
                assert(s2[i + 1] == c);
                assert(chunk_lt(s2[0], s2[i + 1]));
                assert(s1.contains(c));
                let j = choose|j: int| 0 <= j < s1.len() && s1[j] == c;
                assert(j != 0);
                assert(t1[j - 1] == c);
            }
        }
        assert forall|i: int, j: int| 0 <= i < j < t1.len() implies chunk_lt(#[trigger] t1[i], #[trigger] t1[j]) by {
            assert(chunk_lt(s1[i + 1], s1[j + 1]));
        }
        assert forall|i: int, j: int| 0 <= i < j < t2.len() implies chunk_lt(#[trigger] t2[i], #[trigger] t2[j]) by {
            assert(chunk_lt(s2[i + 1], s2[j + 1]));
        }
        lemma_strictly_sorted_unique(t1, t2);
        assert(s1 =~= s2) by {
            assert forall|i: int| 0 <= i < s1.len() implies s1[i] == s2[i] by {
                if i > 0 {
                    assert(t1[i - 1] == t2[i - 1]);
                }
            }
        }
    }
}

/// The ball listing is unique: any two sequences that list exactly the ball
/// of `radius` around `center` in strictly increasing order are equal, so
/// `chunks_in_sphere` has exactly one possible result.
pub proof fn lemma_sphere_listing_unique(center: ChunkCoord, radius: int, s1: Seq<ChunkCoord>, s2: Seq<ChunkCoord>)
    requires
        is_sphere_listing(center, radius, s1),
        is_sphere_listing(center, radius, s2),
    ensures
        s1 == s2,
{
    assert forall|c: ChunkCoord| s1.contains(c) <==> s2.contains(c) by {
        if s1.contains(c) {
            let i = choose|i: int| 0 <= i < s1.len() && s1[i] == c;
            assert(in_sphere(center, radius, s1[i]));
        }
        if s2.contains(c) {
            let i = choose|i: int| 0 <= i < s2.len() && s2[i] == c;
            assert(in_sphere(center, radius, s2[i]));
        }
    }
    lemma_strictly_sorted_unique(s1, s2);
}

/// Different world seeds give every chunk a different base hash.
pub proof fn lemma_chunk_hash_seed_injective(seed1: u64, seed2: u64, chunk: ChunkCoord)
    requires
        seed1 != seed2,
    ensures
        chunk_hash_base_spec(seed1, chunk) != chunk_hash_base_spec(seed2, chunk),
{
    let ax = mul_mod64(chunk.x as u64, 0x9e3779b97f4a7c15);
    let ay = mul_mod64(chunk.y as u64, 0x6c62272e07bb0142);
    let az = mul_mod64(chunk.z as u64, 0x4d2c6dfc5ac42aad);
    let w = |s: u64|
        vstd::wrapping::u64_specs::wrapping_add(
            vstd::wrapping::u64_specs::wrapping_add(vstd::wrapping::u64_specs::wrapping_add(s, ax), ay),
            az,
        );
    assert(w(seed1) != w(seed2));
    crate::hash::lemma_splitmix64_injective(w(seed1), w(seed2));
}

/// Sign-extension to `u64` keeps distinct `i32` values distinct, even in
/// their low 63 bits.
proof fn lemma_sign_extend_injective(a: i32, b: i32)
    requires
        a != b,
    ensures
        (a as u64) != (b as u64),
        (a as u64) % 0x8000_0000_0000_0000 != (b as u64) % 0x8000_0000_0000_0000,
{
    assert((a as u64) != (b as u64)) by (bit_vector)
        requires a != b;
    assert((a as u64) & 0x7fff_ffff_ffff_ffffu64 != (b as u64) & 0x7fff_ffff_ffff_ffffu64) by (bit_vector)
        requires a != b;
    assert(((a as u64) & 0x7fff_ffff_ffff_ffffu64) == (a as u64) % 0x8000_0000_0000_0000u64) by (bit_vector);
    assert(((b as u64) & 0x7fff_ffff_ffff_ffffu64) == (b as u64) % 0x8000_0000_0000_0000u64) by (bit_vector);
}

/// Distinct coordinates along one axis scale to distinct axis terms.
proof fn lemma_axis_term_injective(a: i32, b: i32)
    requires
        a != b,
    ensures
        mul_mod64(a as u64, 0x9e3779b97f4a7c15) != mul_mod64(b as u64, 0x9e3779b97f4a7c15),
        mul_mod64(a as u64, 0x6c62272e07bb0142) != mul_mod64(b as u64, 0x6c62272e07bb0142),
        mul_mod64(a as u64, 0x4d2c6dfc5ac42aad) != mul_mod64(b as u64, 0x4d2c6dfc5ac42aad),
{
    lemma_sign_extend_injective(a, b);
    let m: nat = 0x1_0000_0000_0000_0000nat;
    assert((0x9e3779b97f4a7c15nat * 0xf1de83e19937733dnat) % m == 1);
    assert((0x4d2c6dfc5ac42aadnat * 0xf38ae6d21534c925nat) % m == 1);
    assert((0x6c62272e07bb0142nat * 0xebce78ed7bd46361nat) % m == 2);
    crate::hash::lemma_mul_mod64_assoc(a as u64, 0x9e3779b97f4a7c15, 0xf1de83e19937733d);
    crate::hash::lemma_mul_mod64_assoc(b as u64, 0x9e3779b97f4a7c15, 0xf1de83e19937733d);
    crate::hash::lemma_mul_mod64_assoc(a as u64, 0x4d2c6dfc5ac42aad, 0xf38ae6d21534c925);
    crate::hash::lemma_mul_mod64_assoc(b as u64, 0x4d2c6dfc5ac42aad, 0xf38ae6d21534c925);
    crate::hash::lemma_mul_mod64_assoc(a as u64, 0x6c62272e07bb0142, 0xebce78ed7bd46361);
    crate::hash::lemma_mul_mod64_assoc(b as u64, 0x6c62272e07bb0142, 0xebce78ed7bd46361);
    vstd::arithmetic::div_mod::lemma_small_mod(a as u64 as nat, m);
    vstd::arithmetic::div_mod::lemma_small_mod(b as u64 as nat, m);
    // doubling modulo 2^64 keeps the low 63 bits apart
    let a2 = (a as u64 as nat * 2) % m;
    let b2 = (b as u64 as nat * 2) % m;
    assert(a2 == 2 * ((a as u64 as nat) % 0x8000_0000_0000_0000nat)) by (nonlinear_arith)
        requires a2 == (a as u64 as nat * 2) % m, m == 0x1_0000_0000_0000_0000nat;
    assert(b2 == 2 * ((b as u64 as nat) % 0x8000_0000_0000_0000nat)) by (nonlinear_arith)
        requires b2 == (b as u64 as nat * 2) % m, m == 0x1_0000_0000_0000_0000nat;
}

/// Chunks that differ along exactly one axis have different base hashes
/// under the same world seed.
pub proof fn lemma_chunk_hash_axis_injective(seed: u64, c1: ChunkCoord, c2: ChunkCoord)
    requires
        c1 != c2,
        (c1.x == c2.x && c1.y == c2.y) || (c1.x == c2.x && c1.z == c2.z) || (c1.y == c2.y && c1.z == c2.z),
    ensures
        chunk_hash_base_spec(seed, c1) != chunk_hash_base_spec(seed, c2),
{
    let w = |c: ChunkCoord|
        vstd::wrapping::u64_specs::wrapping_add(
            vstd::wrapping::u64_specs::wrapping_add(
                vstd::wrapping::u64_specs::wrapping_add(seed, mul_mod64(c.x as u64, 0x9e3779b97f4a7c15)),
                mul_mod64(c.y as u64, 0x6c62272e07bb0142),
            ),
            mul_mod64(c.z as u64, 0x4d2c6dfc5ac42aad),
        );
    if c1.x != c2.x {
        lemma_axis_term_injective(c1.x, c2.x);
    } else if c1.y != c2.y {
        lemma_axis_term_injective(c1.y, c2.y);
    } else {
        lemma_axis_term_injective(c1.z, c2.z);
    }
    assert(w(c1) != w(c2));
    crate::hash::lemma_splitmix64_injective(w(c1), w(c2));
}

} // verus!
