use std::collections::HashSet;

use roxlap_game_demo::chunk_queue::ChunkQueue;
use roxlap_game_demo::chunk_set::{missing_chunks, VisitedChunks};
use roxlap_game_demo::chunks::{
    asteroid_seeds, chunk_hash_base, chunk_in_range, chunk_spawn_roll, chunks_in_sphere,
    ChunkCoord, CHUNK_SIZE, CRYSTAL_ROLL_LIMIT, LOAD_RADIUS, SPAWN_SAFE_RANGE,
};
use roxlap_game_demo::hash::splitmix64;
use roxlap_game_demo::sprites::ASTEROID_VOXEL_SIZE;
use roxlap_game_demo::streaming::{
    crystal_fate, queue_missing_chunks, CrystalFate, select_spawn_batch, MAX_CHUNK_EVALS_PER_FRAME, MAX_SPAWNS_PER_FRAME,
};

fn c(x: i32, y: i32, z: i32) -> ChunkCoord {
    ChunkCoord::new(x, y, z)
}

const ZERO: ChunkCoord = ChunkCoord { x: 0, y: 0, z: 0 };

fn visited_from(chunks: &[ChunkCoord]) -> VisitedChunks {
    let mut v = VisitedChunks::new();
    for &ch in chunks {
        v.insert(ch);
    }
    v
}

/// Maps the top 24 bits of a hash word to [-1, 1).
fn hash_to_signed(v: u64) -> f64 {
    (v >> 40) as f64 / 8_388_608.0 - 1.0
}

// ── chunks_in_sphere ─────────────────────────────────────────────────────────

#[test]
fn chunks_in_sphere_radius0_is_just_center() {
    let result = chunks_in_sphere(ZERO, 0);
    assert_eq!(result, vec![ZERO]);
}

#[test]
fn chunks_in_sphere_radius1_count() {
    // unit sphere in 3D integer grid: center + 6 face neighbours = 7
    let count = chunks_in_sphere(ZERO, 1).len();
    assert_eq!(count, 7);
}

#[test]
fn chunks_in_sphere_all_within_radius() {
    let radius = 3;
    let r2 = radius * radius;
    for ch in chunks_in_sphere(ZERO, radius) {
        assert!(
            ch.x * ch.x + ch.y * ch.y + ch.z * ch.z <= r2,
            "{ch:?} is outside radius {radius}"
        );
    }
}

#[test]
fn chunks_in_sphere_no_duplicates() {
    let seen: HashSet<ChunkCoord> = chunks_in_sphere(ZERO, 3).into_iter().collect();
    let count = chunks_in_sphere(ZERO, 3).len();
    assert_eq!(seen.len(), count);
}

#[test]
fn chunks_in_sphere_radius1_exact_order() {
    let result = chunks_in_sphere(c(10, -4, 7), 1);
    assert_eq!(
        result,
        vec![
            c(9, -4, 7),
            c(10, -5, 7),
            c(10, -4, 6),
            c(10, -4, 7),
            c(10, -4, 8),
            c(10, -3, 7),
            c(11, -4, 7),
        ]
    );
}

#[test]
fn chunks_in_sphere_negative_radius_is_empty() {
    assert!(chunks_in_sphere(ZERO, -1).is_empty());
}

#[test]
fn chunks_in_sphere_load_radius_count() {
    // lattice points in a ball of radius 8
    assert_eq!(chunks_in_sphere(ZERO, LOAD_RADIUS).len(), 2109);
}

// ── missing_chunks ───────────────────────────────────────────────────────────

#[test]
fn missing_chunks_empty_visited_returns_full_sphere() {
    let visited = VisitedChunks::new();
    let count = missing_chunks(ZERO, 1, &visited).len();
    assert_eq!(count, 7);
}

#[test]
fn missing_chunks_excludes_visited() {
    let mut visited = visited_from(&chunks_in_sphere(ZERO, 1));
    visited.remove(c(1, 0, 0));
    let missing = missing_chunks(ZERO, 1, &visited);
    assert_eq!(missing, vec![c(1, 0, 0)]);
}

#[test]
fn missing_chunks_all_visited_returns_empty() {
    let visited = visited_from(&chunks_in_sphere(ZERO, 2));
    assert!(missing_chunks(ZERO, 2, &visited).is_empty());
}

// ── visited set ──────────────────────────────────────────────────────────────

#[test]
fn visited_insert_contains_remove() {
    let mut v = VisitedChunks::new();
    assert!(!v.contains(c(1, 2, 3)));
    assert!(v.insert(c(1, 2, 3)));
    assert!(!v.insert(c(1, 2, 3)));
    assert!(v.contains(c(1, 2, 3)));
    assert!(!v.contains(c(3, 2, 1)));
    assert!(v.insert(c(i32::MIN, i32::MAX, -1)));
    assert!(v.contains(c(i32::MIN, i32::MAX, -1)));
    assert!(!v.contains(c(i32::MAX, i32::MIN, -1)));
    assert!(v.remove(c(1, 2, 3)));
    assert!(!v.remove(c(1, 2, 3)));
    assert!(!v.contains(c(1, 2, 3)));
    v.clear();
    assert!(!v.contains(c(i32::MIN, i32::MAX, -1)));
}

#[test]
fn visited_retain_within_drops_far_chunks() {
    let mut v = visited_from(&[c(0, 0, 0), c(2, 0, 0), c(3, 0, 0), c(2, 2, 0), c(-2, 0, 1)]);
    v.retain_within(ZERO, 2);
    assert!(v.contains(c(0, 0, 0)));
    assert!(v.contains(c(2, 0, 0)));
    assert!(!v.contains(c(3, 0, 0)));
    assert!(!v.contains(c(2, 2, 0)));
    assert!(!v.contains(c(-2, 0, 1)));
}

#[test]
fn visited_retain_within_near_the_coordinate_limit() {
    let edge = c(i32::MAX - 3, i32::MIN + 1, 0);
    let mut v = visited_from(&[edge, c(i32::MAX, i32::MIN, 0), c(i32::MAX - 20, i32::MIN + 1, 0), ZERO]);
    v.retain_within(edge, 10);
    assert!(v.contains(edge));
    assert!(v.contains(c(i32::MAX, i32::MIN, 0)));
    assert!(!v.contains(c(i32::MAX - 20, i32::MIN + 1, 0)));
    assert!(!v.contains(ZERO));
}

#[test]
fn visited_retain_within_negative_radius_forgets_all() {
    let mut v = visited_from(&[ZERO, c(1, 0, 0)]);
    v.retain_within(ZERO, -1);
    assert!(!v.contains(ZERO));
    assert!(!v.contains(c(1, 0, 0)));
}

#[test]
fn chunk_in_range_is_inclusive() {
    assert!(chunk_in_range(c(8, 0, 0), ZERO, 8));
    assert!(!chunk_in_range(c(8, 1, 0), ZERO, 8));
    assert!(chunk_in_range(c(i32::MAX, 0, 0), c(i32::MAX, 0, 0), 0));
    assert!(!chunk_in_range(c(i32::MAX, 0, 0), c(i32::MIN, 0, 0), LOAD_RADIUS));
}

// ── chunk hashing ────────────────────────────────────────────────────────────

#[test]
fn chunk_hash_in_unit_range() {
    for seed in [0u64, 1, u64::MAX, 0xdead_beef] {
        for chunk in [ZERO, c(1, -1, 1000), c(-100, 200, -300)] {
            let v = chunk_spawn_roll(seed, chunk) as f32 / 16_777_216.0;
            assert!(
                (0.0..1.0).contains(&v),
                "hash out of [0,1): {v} for chunk {chunk:?} seed {seed}"
            );
        }
    }
}

#[test]
fn chunk_hash_differs_by_seed() {
    let chunk = c(5, 5, 5);
    assert_ne!(
        chunk_spawn_roll(0, chunk),
        chunk_spawn_roll(1, chunk),
        "different seeds must produce different hashes"
    );
}

#[test]
fn chunk_hash_differs_by_coord() {
    let seed = 42u64;
    let hx = chunk_spawn_roll(seed, c(1, 0, 0));
    let hy = chunk_spawn_roll(seed, c(0, 1, 0));
    let hz = chunk_spawn_roll(seed, c(0, 0, 1));
    let hn = chunk_spawn_roll(seed, c(-1, 0, 0));
    assert_ne!(hx, hy);
    assert_ne!(hy, hz);
    assert_ne!(hx, hn, "positive and negative coords must hash differently");
}

#[test]
fn chunk_hash_known_values() {
    assert_eq!(chunk_hash_base(42, c(1, -2, 3)), 2939743630319789654);
    assert_eq!(chunk_spawn_roll(42, c(1, -2, 3)), 2673681);
    assert_eq!(chunk_spawn_roll(42, c(1, 0, 0)), 12441394);
    assert_eq!(chunk_spawn_roll(42, c(-1, 0, 0)), 6993845);
}

#[test]
fn asteroid_seeds_known_values() {
    let h = chunk_hash_base(42, c(1, -2, 3));
    let s = asteroid_seeds(h);
    assert_eq!(
        s.offset_words,
        [6926319477939841706, 16114245387370272328, 4550815172655118321]
    );
    assert_eq!(
        s.spin_words,
        [921944512115466376, 71791062123467770, 6319861008715056174]
    );
    assert_eq!(s.color_seed, h + 6);
    assert_eq!(s.mineral_seed, h + 7);
    assert_eq!(s.noise_seed, h + 9);
    assert_eq!(s.scale_seed, h + 10);
    assert!(!s.has_crystals);
    assert!(asteroid_seeds(502).has_crystals);
    assert_eq!(
        asteroid_seeds(502).has_crystals,
        (splitmix64(510) >> 40) < CRYSTAL_ROLL_LIMIT
    );
}

#[test]
fn asteroid_seeds_wrap_around() {
    let s = asteroid_seeds(u64::MAX - 6);
    assert_eq!(s.color_seed, u64::MAX);
    assert_eq!(s.mineral_seed, 0);
    assert_eq!(s.offset_words[0], splitmix64(u64::MAX - 6));
}

// ── spawn offset / spin ranges ───────────────────────────────────────────────

#[test]
fn spawn_angular_vel_in_unit_range() {
    for seed in [0u64, 1, 0xdead_beef, u64::MAX] {
        for chunk in [ZERO, c(1, -1, 1000), c(-100, 200, -300)] {
            let s = asteroid_seeds(chunk_hash_base(seed, chunk));
            for w in s.spin_words {
                let v = hash_to_signed(w);
                assert!(
                    v.abs() <= 1.0,
                    "angular_vel {v} out of [-1,1] for chunk {chunk:?} seed {seed}"
                );
            }
        }
    }
}

#[test]
fn spawn_offset_within_safe_range() {
    for seed in [0u64, 1, 0xdead_beef, u64::MAX] {
        for chunk in [ZERO, c(1, -1, 1000), c(-100, 200, -300)] {
            let s = asteroid_seeds(chunk_hash_base(seed, chunk));
            for w in s.offset_words {
                let o = hash_to_signed(w) * SPAWN_SAFE_RANGE as f64;
                assert!(
                    o.abs() <= SPAWN_SAFE_RANGE as f64,
                    "offset {o} exceeds safe range for chunk {chunk:?} seed {seed}"
                );
            }
        }
    }
}

#[test]
fn adjacent_asteroids_do_not_overlap() {
    // Worst case: both asteroids offset maximally toward the shared boundary.
    let half_extent = (ASTEROID_VOXEL_SIZE / 2) as i32;
    let centre_a = CHUNK_SIZE / 2;
    let centre_b = CHUNK_SIZE + CHUNK_SIZE / 2;
    let worst_a = centre_a + SPAWN_SAFE_RANGE;
    let worst_b = centre_b - SPAWN_SAFE_RANGE;
    let gap = (worst_b - worst_a).abs();
    assert!(
        gap >= 2 * half_extent,
        "gap {gap} < min separation {}",
        2 * half_extent
    );
}

// ── chunk queue ──────────────────────────────────────────────────────────────

#[test]
fn queue_is_fifo_without_duplicates() {
    let mut q = ChunkQueue::new();
    assert!(q.is_empty());
    q.enqueue(c(1, 0, 0));
    q.enqueue(c(2, 0, 0));
    q.enqueue(c(1, 0, 0));
    assert_eq!(q.len(), 2);
    assert_eq!(q.front(), Some(c(1, 0, 0)));
    assert_eq!(q.pop_front(), Some(c(1, 0, 0)));
    // popped chunks may be queued again
    q.enqueue(c(1, 0, 0));
    assert_eq!(q.len(), 2);
    assert_eq!(q.pop_front(), Some(c(2, 0, 0)));
    assert_eq!(q.pop_front(), Some(c(1, 0, 0)));
    assert_eq!(q.pop_front(), None);
    assert_eq!(q.front(), None);
}

#[test]
fn queue_drain_front_and_clear() {
    let mut q = ChunkQueue::new();
    for i in 0..5 {
        q.enqueue(c(i, i, i));
    }
    let drained = q.drain_front(3);
    assert_eq!(drained, vec![c(0, 0, 0), c(1, 1, 1), c(2, 2, 2)]);
    assert_eq!(q.len(), 2);
    q.enqueue(c(0, 0, 0));
    assert_eq!(q.len(), 3);
    q.clear();
    assert!(q.is_empty());
    q.enqueue(c(3, 3, 3));
    assert_eq!(q.len(), 1);
}

#[test]
fn queue_missing_chunks_skips_visited_and_queued() {
    let mut q = ChunkQueue::new();
    q.enqueue(c(0, 0, 1));
    let visited = visited_from(&[c(0, 0, 0)]);
    let missing = queue_missing_chunks(&mut q, &visited, ZERO, 1);
    assert_eq!(missing.len(), 6);
    assert_eq!(q.len(), 6);
    assert_eq!(q.pop_front(), Some(c(0, 0, 1)));
    assert_eq!(q.pop_front(), Some(c(-1, 0, 0)));
}

#[test]
fn spawn_batch_gates_on_range_and_density() {
    let mut q = ChunkQueue::new();
    q.enqueue(c(0, 0, 0));
    q.enqueue(c(100, 0, 0)); // stale: outside the load radius
    q.enqueue(c(1, 0, 0));
    q.enqueue(c(2, 0, 0));
    let mut visited = VisitedChunks::new();
    let batch = select_spawn_batch(&mut q, &mut visited, ZERO, |ch: ChunkCoord| ch.x % 2 == 0);
    assert_eq!(batch, vec![c(0, 0, 0), c(2, 0, 0)]);
    assert!(q.is_empty());
    assert!(visited.contains(c(0, 0, 0)));
    assert!(visited.contains(c(1, 0, 0)));
    assert!(visited.contains(c(2, 0, 0)));
    assert!(!visited.contains(c(100, 0, 0)));
}

#[test]
fn spawn_batch_respects_per_frame_caps() {
    let mut q = ChunkQueue::new();
    for ch in chunks_in_sphere(ZERO, LOAD_RADIUS) {
        q.enqueue(ch);
    }
    let total = q.len();
    let mut visited = VisitedChunks::new();
    let batch = select_spawn_batch(&mut q, &mut visited, ZERO, |_| true);
    assert_eq!(batch.len(), MAX_SPAWNS_PER_FRAME);
    assert_eq!(q.len(), total - MAX_SPAWNS_PER_FRAME);

    let batch = select_spawn_batch(&mut q, &mut visited, ZERO, |_| false);
    assert!(batch.is_empty());
    assert_eq!(q.len(), total - MAX_SPAWNS_PER_FRAME - MAX_CHUNK_EVALS_PER_FRAME);
}

#[test]
fn crystal_fates() {
    let ship = ChunkCoord::new(0, 0, 0);
    let near = ChunkCoord::new(8, 0, 0);
    let far = ChunkCoord::new(6, 6, 0);
    assert_eq!(crystal_fate(true, far, ship), CrystalFate::Feeding);
    assert_eq!(crystal_fate(false, far, ship), CrystalFate::Lost);
    assert_eq!(crystal_fate(false, near, ship), CrystalFate::Kept);
    assert_eq!(crystal_fate(true, near, ship), CrystalFate::Feeding);
}

#[test]
fn stale_chunk_is_offered_again_on_return() {
    let mut q = ChunkQueue::new();
    let mut visited = VisitedChunks::new();
    // Queued while the ship was at the origin...
    queue_missing_chunks(&mut q, &visited, ZERO, 0);
    // ...and evaluated after it flew far away: dropped, not visited.
    let batch = select_spawn_batch(&mut q, &mut visited, c(100, 0, 0), |_| true);
    assert!(batch.is_empty());
    assert!(q.is_empty());
    assert!(!visited.contains(ZERO));
    // Back home, the chunk is missing again and re-queued.
    let missing = queue_missing_chunks(&mut q, &visited, ZERO, 0);
    assert_eq!(missing, vec![ZERO]);
    assert_eq!(q.front(), Some(ZERO));
}
