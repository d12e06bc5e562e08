use rand::SeedableRng;
use roxlap_game_demo::asteroid::{carve_destroys, minerals_in_radius, AsteroidMinerals};
use roxlap_game_demo::sprites::{
    build_crystal, build_particle, build_projectile, grey_voxel_color, keep_drawn_minerals,
    mineral_pick_count, pick_minerals, random_voxel_colour, CRYSTAL_COLOR, PROJECTILE_COLOR,
};
use roxlap_game_demo::impact::resolve_hit;
use roxlap_game_demo::voxel_edit::carve_sphere;
use roxlap_game_demo::voxel_model::{count_bits_below, words_per_column, VoxelModel};

fn occupied(m: &VoxelModel, x: u32, y: u32, z: u32) -> bool {
    let col = (x + y * m.dims[0]) as usize;
    let word = m.occupancy[col * m.occ_words_per_col as usize + z as usize / 32];
    (word >> (z % 32)) & 1 == 1
}

/// Build a solid 5×5×5 model (all voxels occupied), colour = dense index.
fn make_5x5x5() -> VoxelModel {
    let solid = vec![true; 125];
    let colors: Vec<u32> = (0..125).collect();
    VoxelModel::from_dense([5, 5, 5], &solid, &colors)
}

// ── crystal ──────────────────────────────────────────────────────────────────

#[test]
fn crystal_dims_and_pivot() {
    let m = build_crystal();
    assert_eq!(m.dims, [3, 3, 3]);
    assert_eq!(m.doubled_pivot().map(|d| d as f32 / 2.0), [1.5, 1.5, 1.5]);
}

#[test]
fn crystal_voxel_count() {
    // 1 centre + 6 face neighbours = 7 voxels.
    assert_eq!(build_crystal().colors.len(), 7);
}

#[test]
fn crystal_color_offsets_consistent() {
    let m = build_crystal();
    let n_cols = (m.dims[0] * m.dims[1]) as usize;
    assert_eq!(m.color_offsets.len(), n_cols + 1);
    assert_eq!(*m.color_offsets.last().unwrap() as usize, m.colors.len());
}

#[test]
fn crystal_arm_voxels_all_occupied() {
    let m = build_crystal();
    let arm: &[[u32; 3]] = &[
        [0, 1, 1],
        [1, 0, 1],
        [1, 1, 0],
        [1, 1, 1],
        [1, 1, 2],
        [1, 2, 1],
        [2, 1, 1],
    ];
    for &v in arm {
        assert!(occupied(&m, v[0], v[1], v[2]), "voxel {v:?} not occupied");
    }
}

#[test]
fn crystal_exact_layout() {
    let m = build_crystal();
    assert_eq!(m.occ_words_per_col, 1);
    assert_eq!(m.occupancy, vec![0, 2, 0, 2, 7, 2, 0, 2, 0]);
    assert_eq!(m.color_offsets, vec![0, 0, 1, 1, 2, 5, 6, 6, 7, 7]);
    assert_eq!(m.colors, vec![CRYSTAL_COLOR; 7]);
    assert_eq!(m.dirs, vec![0; 7]);
    assert_eq!(m.voxel_color(1, 1, 1), Some(CRYSTAL_COLOR));
    assert_eq!(m.voxel_color(0, 0, 0), None);
}

// ── particle / projectile ────────────────────────────────────────────────────

#[test]
fn particle_is_solid_with_z_gradient() {
    let m = build_particle();
    assert_eq!(m.occupancy, vec![0b111; 9]);
    assert_eq!(
        m.color_offsets,
        (0..=9).map(|i| i * 3).collect::<Vec<u32>>()
    );
    assert_eq!(m.colors.len(), 27);
    assert_eq!(m.voxel_color(2, 1, 0), Some(0x80_D0_D0_D0));
    assert_eq!(m.voxel_color(0, 2, 1), Some(0x80_A0_A0_A0));
    assert_eq!(m.voxel_color(1, 1, 2), Some(0x80_60_60_60));
}

#[test]
fn projectile_is_one_voxel() {
    let m = build_projectile();
    assert_eq!(m.dims, [1, 1, 1]);
    assert_eq!(m.occupancy, vec![1]);
    assert_eq!(m.color_offsets, vec![0, 1]);
    assert_eq!(m.colors, vec![PROJECTILE_COLOR]);
    assert_eq!(m.dirs, vec![0]);
}

#[test]
fn grey_voxel_color_packs_channels() {
    assert_eq!(grey_voxel_color(0), 0x8000_0000);
    assert_eq!(grey_voxel_color(50), 0x80_32_32_32);
    assert_eq!(grey_voxel_color(180), 0x80_B4_B4_B4);
}

// ── dense packing and lookups ────────────────────────────────────────────────

#[test]
fn words_per_column_rounds_up() {
    assert_eq!(words_per_column(0), 1);
    assert_eq!(words_per_column(1), 1);
    assert_eq!(words_per_column(32), 1);
    assert_eq!(words_per_column(33), 2);
    assert_eq!(words_per_column(64), 2);
}

#[test]
fn count_bits_below_counts_low_bits() {
    assert_eq!(count_bits_below(0b1011, 0), 0);
    assert_eq!(count_bits_below(0b1011, 2), 2);
    assert_eq!(count_bits_below(0b1011, 3), 2);
    assert_eq!(count_bits_below(u32::MAX, 32), 32);
}

#[test]
fn from_dense_tall_columns_use_two_words() {
    // 1×1×40 column, solid at z = 3 and z = 35
    let mut solid = vec![false; 40];
    solid[3] = true;
    solid[35] = true;
    let colors: Vec<u32> = (0..40).map(|z| 100 + z).collect();
    let m = VoxelModel::from_dense([1, 1, 40], &solid, &colors);
    assert_eq!(m.occ_words_per_col, 2);
    assert_eq!(m.occupancy, vec![1 << 3, 1 << 3]);
    assert_eq!(m.colors, vec![103, 135]);
    assert_eq!(m.voxel_color(0, 0, 35), Some(135));
    assert_eq!(m.voxel_color(0, 0, 34), None);
    assert_eq!(m.voxel_color_index(0, 0, 1, 3), 1);
}

#[test]
fn occupied_voxel_bounds_and_bits() {
    // 3×1×1 model with only voxel (2, 0, 0) occupied.
    let m = VoxelModel::from_dense([3, 1, 1], &vec![false, false, true], &vec![0, 0, 0xFFFF_FFFF]);
    assert_eq!(m.occupied_voxel([2, 0, 0]), Some([2, 0, 0]));
    assert_eq!(m.occupied_voxel([0, 0, 0]), None);
    assert_eq!(m.occupied_voxel([-1, 0, 0]), None);
    assert_eq!(m.occupied_voxel([10, 0, 0]), None);
    assert_eq!(m.occupied_voxel([2, 0, 1]), None);
}

// ── carving ──────────────────────────────────────────────────────────────────

#[test]
fn carve_removes_voxels_in_sphere() {
    let mut model = make_5x5x5();
    let before = model.colors.len();
    // Carve radius 1 at centre (2,2,2) — removes the 7-voxel cross (1+6).
    carve_sphere(&mut model, [2, 2, 2], 1);
    assert!(model.colors.len() < before, "some voxels should be removed");
}

#[test]
fn carve_out_of_bounds_does_not_panic() {
    let mut model = make_5x5x5();
    // Centre at corner; half the sphere is outside the model bounds.
    carve_sphere(&mut model, [0, 0, 0], 4);
}

#[test]
fn carve_radius_one_removes_exactly_the_cross() {
    let mut model = make_5x5x5();
    let (empty, count) = carve_sphere(&mut model, [2, 2, 2], 1);
    assert!(!empty);
    assert_eq!(count, 118);
    assert!(!occupied(&model, 2, 2, 2));
    assert!(!occupied(&model, 1, 2, 2));
    assert!(!occupied(&model, 2, 2, 3));
    assert!(occupied(&model, 1, 1, 2));
    // surviving voxels keep their colours (colour = dense index)
    assert_eq!(model.voxel_color(1, 1, 2), Some(((1 + 5) * 5 + 2) as u32));
    assert_eq!(model.voxel_color(4, 4, 4), Some(124));
    assert_eq!(*model.color_offsets.last().unwrap() as usize, model.colors.len());
    assert_eq!(model.dirs.len(), model.colors.len());
}

#[test]
fn carve_everything_reports_empty() {
    let mut model = make_5x5x5();
    let (empty, count) = carve_sphere(&mut model, [2, 2, 2], 4);
    assert!(empty);
    assert_eq!(count, 0);
    assert!(model.occupancy.iter().all(|&w| w == 0));
}

#[test]
fn carve_huge_radius_is_noop() {
    let mut model = make_5x5x5();
    let (empty, count) = carve_sphere(&mut model, [2, 2, 2], u32::MAX);
    assert!(!empty);
    assert_eq!(count, 125);
}

#[test]
fn destroy_rule() {
    assert!(carve_destroys(true, 0, 100));
    assert!(carve_destroys(false, 19, 100));
    assert!(carve_destroys(false, 50, 100));
    assert!(carve_destroys(false, 79, 100));
    assert!(!carve_destroys(false, 80, 100));
    assert!(!carve_destroys(false, 100, 100));
    assert!(!carve_destroys(false, u32::MAX, u32::MAX));
}

// ── minerals ─────────────────────────────────────────────────────────────────

#[test]
fn minerals_center_included() {
    let center = [2, 2, 2];
    let pts = vec![[2, 2, 2], [10, 10, 10]];
    assert_eq!(minerals_in_radius(&pts, center, 1), vec![[2, 2, 2]]);
}

#[test]
fn minerals_at_exact_radius_included() {
    // distance along one axis 2, radius 2 → distance² = 4 = r².
    let center = [0, 0, 0];
    let pts = vec![[2, 0, 0]];
    assert_eq!(minerals_in_radius(&pts, center, 2), pts);
}

#[test]
fn minerals_outside_radius_excluded() {
    let center = [0, 0, 0];
    let pts = vec![[3, 0, 0]];
    assert!(minerals_in_radius(&pts, center, 2).is_empty());
}

#[test]
fn remove_hit_minerals_keeps_order() {
    let mut m = AsteroidMinerals {
        points: vec![[1, 1, 1], [2, 2, 2], [3, 3, 3], [4, 4, 4]],
    };
    m.remove_points(&vec![[3, 3, 3], [1, 1, 1], [9, 9, 9]]);
    assert_eq!(m.points, vec![[2, 2, 2], [4, 4, 4]]);
}

// ── resolve_hit ──────────────────────────────────────────────────────────────

#[test]
fn hit_releases_only_crater_minerals() {
    let mut model = make_5x5x5();
    let mut minerals = AsteroidMinerals {
        points: vec![[0, 0, 0], [4, 4, 4], [2, 2, 2]],
    };
    // A 5×5×5 cube seeded from 8 voxels: losing the crater keeps it alive.
    let out = resolve_hit(&mut model, &mut minerals, [0, 0, 0], 8);
    assert!(!out.destroy);
    assert_eq!(out.crystals, vec![[0, 0, 0], [2, 2, 2]]);
    assert_eq!(minerals.points, vec![[4, 4, 4]]);
    assert!(!occupied(&model, 0, 0, 0));
    assert!(occupied(&model, 4, 4, 4));
}

#[test]
fn hit_carving_over_a_fifth_destroys_and_releases_everything() {
    let mut model = make_5x5x5();
    let mut minerals = AsteroidMinerals {
        points: vec![[4, 4, 4], [0, 4, 0]],
    };
    // Measured against 1000 spawn voxels, far more than a fifth is gone.
    let out = resolve_hit(&mut model, &mut minerals, [0, 0, 0], 1000);
    assert!(out.destroy);
    assert_eq!(out.crystals, vec![[4, 4, 4], [0, 4, 0]]);
    assert_eq!(minerals.points, vec![[4, 4, 4], [0, 4, 0]]);
}

#[test]
fn hit_emptying_the_model_destroys_it() {
    let mut model = VoxelModel::from_dense([1, 1, 1], &vec![true], &vec![7]);
    let mut minerals = AsteroidMinerals { points: vec![] };
    let out = resolve_hit(&mut model, &mut minerals, [0, 0, 0], 1);
    assert!(out.destroy);
    assert!(out.crystals.is_empty());
    assert!(model.colors.is_empty());
}

// ── asteroid colours and minerals ────────────────────────────────────────────

#[test]
fn random_voxel_colour_is_a_mid_grey() {
    let mut rng = rand::rngs::StdRng::seed_from_u64(7);
    for _ in 0..200 {
        let c = random_voxel_colour(&mut rng);
        let v = c & 0xff;
        assert!((50..=180).contains(&v));
        assert_eq!(c, grey_voxel_color(v));
    }
}

#[test]
fn no_minerals_without_deposits() {
    let cands = vec![[1, 2, 3], [4, 5, 6], [7, 8, 9], [1, 1, 1]];
    assert!(pick_minerals(cands, false, 3).is_empty());
    assert!(pick_minerals(vec![], true, 3).is_empty());
}

#[test]
fn picks_three_to_five_distinct_candidates() {
    let cands: Vec<[u32; 3]> = (0..20).map(|i| [i, i + 1, i + 2]).collect();
    for seed in 0..50u64 {
        let picked = pick_minerals(cands.clone(), true, seed);
        assert!((3..=5).contains(&picked.len()), "{} picks", picked.len());
        for p in &picked {
            assert!(cands.contains(p));
        }
        let mut sorted = picked.clone();
        sorted.sort();
        sorted.dedup();
        assert_eq!(sorted.len(), picked.len());
    }
}

#[test]
fn few_candidates_are_all_picked() {
    let cands = vec![[1, 2, 3], [4, 5, 6]];
    let mut picked = pick_minerals(cands.clone(), true, 11);
    picked.sort();
    assert_eq!(picked, cands);
}

#[test]
fn mineral_picks_are_deterministic_per_seed() {
    let cands: Vec<[u32; 3]> = (0..20).map(|i| [i, 0, 0]).collect();
    assert_eq!(pick_minerals(cands.clone(), true, 99), pick_minerals(cands, true, 99));
}

// ── well-formedness check ────────────────────────────────────────────────────

#[test]
fn built_models_are_well_formed() {
    assert!(make_5x5x5().is_well_formed());
    assert!(build_crystal().is_well_formed());
    assert!(build_particle().is_well_formed());
    assert!(build_projectile().is_well_formed());
}

#[test]
fn tampered_models_are_rejected() {
    let mut m = make_5x5x5();
    m.color_offsets[3] += 1;
    assert!(!m.is_well_formed());

    let mut m = make_5x5x5();
    // Bit 7 of column 0 lies above the 5-voxel height.
    m.occupancy[0] |= 1 << 7;
    assert!(!m.is_well_formed());

    let mut m = make_5x5x5();
    m.dirs.pop();
    assert!(!m.is_well_formed());

    let mut m = make_5x5x5();
    m.occ_words_per_col = 0;
    assert!(!m.is_well_formed());
}

#[test]
fn carving_keeps_models_well_formed() {
    let mut m = make_5x5x5();
    carve_sphere(&mut m, [2, 2, 2], 2);
    assert!(m.is_well_formed());
}

#[test]
fn drawn_count_is_capped_by_candidates() {
    assert_eq!(mineral_pick_count(4, 10), 4);
    assert_eq!(mineral_pick_count(5, 2), 2);
    assert_eq!(mineral_pick_count(3, 3), 3);
}

#[test]
fn kept_minerals_are_the_leading_shuffled_points() {
    let shuffled = vec![[9, 9, 9], [1, 2, 3], [4, 5, 6], [7, 8, 9]];
    assert_eq!(keep_drawn_minerals(shuffled.clone(), 3), vec![[9, 9, 9], [1, 2, 3], [4, 5, 6]]);
    assert_eq!(keep_drawn_minerals(shuffled.clone(), 5), shuffled);
}

#[test]
fn small_crater_in_a_large_asteroid_keeps_it() {
    let n = 1000usize;
    let mut model = VoxelModel::from_dense([10, 10, 10], &vec![true; n], &vec![1; n]);
    let mut minerals = AsteroidMinerals { points: vec![[9, 9, 9]] };
    let out = resolve_hit(&mut model, &mut minerals, [0, 0, 0], n as u32);
    // An octant of a radius-4 ball is well under a fifth of the volume.
    assert!(!out.destroy);
    assert!(model.colors.len() * 5 >= n * 4);
    assert!(out.crystals.is_empty());
    assert_eq!(minerals.points, vec![[9, 9, 9]]);
}

#[test]
fn occupied_voxel_needs_only_sized_occupancy() {
    // Offsets and colours out of step: not well formed, but lookups work.
    let mut m = make_5x5x5();
    m.color_offsets[3] += 1;
    assert!(!m.is_well_formed());
    assert!(m.has_sized_occupancy());
    assert_eq!(m.occupied_voxel([1, 2, 3]), Some([1, 2, 3]));
    assert_eq!(m.occupied_voxel([5, 0, 0]), None);
    m.occupancy.pop();
    assert!(!m.has_sized_occupancy());
}
