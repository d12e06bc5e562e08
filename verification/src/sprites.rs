use vstd::prelude::*;

use rand::rngs::StdRng;

use crate::rng::{partial_shuffle_points, random_in_range, seeded_rng};
use crate::voxel_model::{dense_index, VoxelModel};

verus! {

/// Edge length, in voxels, of an asteroid volume.
pub const ASTEROID_VOXEL_SIZE: u32 = 16;

/// Colour of a mineral-bearing voxel.
pub const MINERAL_VOXEL_COLOR: u32 = 0x80_C0_30_30;

/// Colour of every crystal voxel.
pub const CRYSTAL_COLOR: u32 = 0x80_FF_30_30;

/// Colour of the projectile voxel.
pub const PROJECTILE_COLOR: u32 = 0x80_FF_00_FF;

/// Opaque grey of brightness `v`: alpha flag `0x80` and `v` in each of the
/// red, green and blue bytes.
pub open spec fn grey_value(v: int) -> int {
    0x8000_0000 + v * 0x1_0000 + v * 0x100 + v
}

/// The colour `grey_value(v)`.
pub fn grey_voxel_color(v: u32) -> (c: u32)
    requires
        v < 256,
    ensures
        c == grey_value(v as int),
{
    assert((0x8000_0000u32 | (v << 16u32) | (v << 8u32) | v) == 0x8000_0000u32 + v * 0x1_0000u32
        + v * 0x100u32 + v) by (bit_vector)
        requires v < 256;
    0x8000_0000 | (v << 16) | (v << 8) | v
}

/// Darkest grey drawn for an asteroid voxel.
pub const ASTEROID_GREY_MIN: u32 = 50;

/// Brightest grey drawn for an asteroid voxel.
pub const ASTEROID_GREY_MAX: u32 = 180;

/// Fewest mineral cores an asteroid with deposits gets (when it has room).
pub const MINERALS_MIN: u32 = 3;

/// Most mineral cores an asteroid with deposits gets.
pub const MINERALS_MAX: u32 = 5;

/// A random opaque grey between `ASTEROID_GREY_MIN` and `ASTEROID_GREY_MAX`.
pub fn random_voxel_colour(rng: &mut StdRng) -> (c: u32)
    ensures
        exists|v: int| ASTEROID_GREY_MIN <= v <= ASTEROID_GREY_MAX && c == #[trigger] grey_value(v),
{
    let v = random_in_range(rng, ASTEROID_GREY_MIN, ASTEROID_GREY_MAX);
    grey_voxel_color(v)
}

/// How many mineral cores are kept from `available` candidates when the
/// generator drew `drawn`: the draw, capped by the candidates.
pub open spec fn mineral_count(drawn: int, available: int) -> int {
    if drawn < available {
        drawn
    } else {
        available
    }
}

/// `mineral_count(drawn, available)`.
pub fn mineral_pick_count(drawn: u32, available: usize) -> (n: usize)
    ensures
        n == mineral_count(drawn as int, available as int),
{
    if (drawn as usize) < available {
        drawn as usize
    } else {
        available
    }
}

/// Keep the first `mineral_count(drawn, len)` points of the shuffled
/// candidates.
pub fn keep_drawn_minerals(shuffled: Vec<[u32; 3]>, drawn: u32) -> (picked: Vec<[u32; 3]>)
    ensures
        picked@ == shuffled@.take(mineral_count(drawn as int, shuffled@.len() as int)),
        picked@.to_multiset().subset_of(shuffled@.to_multiset()),
{
    let mut c = shuffled;
    let count = mineral_pick_count(drawn, c.len());
    let ghost whole = c@;
    c.truncate(count);
    proof {
        broadcast use vstd::multiset::group_multiset_axioms;
        assert(whole =~= whole.subrange(0, count as int) + whole.subrange(count as int, whole.len() as int));
        vstd::seq_lib::lemma_multiset_commutative(
            whole.subrange(0, count as int),
            whole.subrange(count as int, whole.len() as int),
        );
        assert(c@.to_multiset().subset_of(whole.to_multiset()));
    }
    c
}

/// Choose the mineral cores of an asteroid among the interior `candidates`:
/// none unless `collect` is set and there is a candidate. Otherwise the
/// generator seeded with `mineral_seed` draws a count between
/// `MINERALS_MIN` and `MINERALS_MAX`, capped by the candidates, partially
/// shuffles the candidates by it, and the first that many are kept. Every
/// pick is a candidate, and no candidate is picked more often than it occurs.
pub fn pick_minerals(candidates: Vec<[u32; 3]>, collect: bool, mineral_seed: u64) -> (picked: Vec<[u32; 3]>)
    ensures
        !collect || candidates@.len() == 0 ==> picked@.len() == 0,
        collect && candidates@.len() > 0 ==> exists|shuffled: Seq<[u32; 3]>, drawn: int|
            MINERALS_MIN <= drawn <= MINERALS_MAX
            && shuffled.to_multiset() == candidates@.to_multiset()
            && shuffled.len() == candidates@.len()
            && #[trigger] picked@ == shuffled.take(mineral_count(drawn, shuffled.len() as int)),
        collect && candidates@.len() > 0 ==> {
            &&& picked@.len() >= MINERALS_MIN || picked@.len() == candidates@.len()
            &&& picked@.len() <= MINERALS_MAX
            &&& picked@.len() <= candidates@.len()
        },
        picked@.to_multiset().subset_of(candidates@.to_multiset()),
{
    let mut rng = seeded_rng(mineral_seed);
    if collect && candidates.len() > 0 {
        let mut c = candidates;
        let k = random_in_range(&mut rng, MINERALS_MIN, MINERALS_MAX);
        let count = mineral_pick_count(k, c.len());
        partial_shuffle_points(&mut c, &mut rng, count);
        let ghost shuffled = c@;
        let picked = keep_drawn_minerals(c, k);
        proof {
            assert(picked@ == shuffled.take(mineral_count(k as int, shuffled.len() as int)));
        }
        picked
    } else {
        let empty: Vec<[u32; 3]> = Vec::new();
        proof {
            empty@.to_multiset_ensures();
        }
        empty
    }
}

/// The seven voxels of the crystal cross: the centre of the 3×3×3 box and
/// its six face neighbours.
pub open spec fn is_crystal_arm(x: int, y: int, z: int) -> bool {
    ||| (x, y, z) == (0int, 1int, 1int)
    ||| (x, y, z) == (1int, 0int, 1int)
    ||| (x, y, z) == (1int, 1int, 0int)
    ||| (x, y, z) == (1int, 1int, 1int)
    ||| (x, y, z) == (1int, 1int, 2int)
    ||| (x, y, z) == (1int, 2int, 1int)
    ||| (x, y, z) == (2int, 1int, 1int)
}

/// The crystal arm voxels, sorted by column (`x + 3y`) then ascending z.
pub fn crystal_arm_voxels() -> (v: Vec<[u32; 3]>)
    ensures
        v@.len() == 7,
        forall|i: int| 0 <= i < 7 ==> is_crystal_arm(v@[i][0] as int, v@[i][1] as int, v@[i][2] as int),
        forall|x: int, y: int, z: int| is_crystal_arm(x, y, z) ==> exists|i: int| 0 <= i < 7 && v@[i] == [x as u32, y as u32, z as u32],
{
    let v = vec![[0, 1, 1], [1, 0, 1], [1, 1, 0], [1, 1, 1], [1, 1, 2], [1, 2, 1], [2, 1, 1]];
    assert(v@[0] == [0u32, 1, 1] && v@[1] == [1u32, 0, 1] && v@[2] == [1u32, 1, 0] && v@[3] == [1u32, 1, 1]
        && v@[4] == [1u32, 1, 2] && v@[5] == [1u32, 2, 1] && v@[6] == [2u32, 1, 1]);
    v
}

/// 7-voxel cross crystal: one centre voxel plus one on each of the six faces,
/// all red, in a 3×3×3 box.
pub fn build_crystal() -> (m: VoxelModel)
    ensures
        m.wf(),
        m.dims == [3u32, 3, 3],
        m.occ_words_per_col == 1,
        forall|x: int, y: int, z: int| #[trigger] m.in_bounds(x, y, z) ==> m.occupied(x, y, z) == is_crystal_arm(x, y, z),
        forall|x: int, y: int, z: int| m.in_bounds(x, y, z) && #[trigger] m.occupied(x, y, z) ==> m.color_at(x, y, z) == CRYSTAL_COLOR,
        forall|i: int| 0 <= i < m.dirs@.len() ==> m.dirs@[i] == 0,
{
    let dims: [u32; 3] = [3, 3, 3];
    assert(dims[0] == 3 && dims[1] == 3 && dims[2] == 3);
    let arms = crystal_arm_voxels();
    let mut solid: Vec<bool> = Vec::new();
    let mut colors: Vec<u32> = Vec::new();
    let mut y: u32 = 0;
    while y < 3
        invariant
            y <= 3,
            dims[0] == 3 && dims[1] == 3 && dims[2] == 3,
            arms@.len() == 7,
            forall|i: int| 0 <= i < 7 ==> is_crystal_arm(arms@[i][0] as int, arms@[i][1] as int, arms@[i][2] as int),
            forall|x: int, y: int, z: int| is_crystal_arm(x, y, z) ==> exists|i: int| 0 <= i < 7 && arms@[i] == [x as u32, y as u32, z as u32],
            solid@.len() == y * 9,
            colors@.len() == solid@.len(),
            forall|i: int| 0 <= i < colors@.len() ==> colors@[i] == CRYSTAL_COLOR,
            forall|xx: int, yy: int, zz: int| 0 <= xx < 3 && 0 <= yy < y && 0 <= zz < 3
                ==> solid@[#[trigger] dense_index(dims, xx, yy, zz)] == is_crystal_arm(xx, yy, zz),
        decreases 3 - y,
    {
        let mut x: u32 = 0;
        while x < 3
            invariant
                y < 3,
                x <= 3,
                dims[0] == 3 && dims[1] == 3 && dims[2] == 3,
                arms@.len() == 7,
                forall|i: int| 0 <= i < 7 ==> is_crystal_arm(arms@[i][0] as int, arms@[i][1] as int, arms@[i][2] as int),
                forall|x: int, y: int, z: int| is_crystal_arm(x, y, z) ==> exists|i: int| 0 <= i < 7 && arms@[i] == [x as u32, y as u32, z as u32],
                solid@.len() == y * 9 + x * 3,
                colors@.len() == solid@.len(),
                forall|i: int| 0 <= i < colors@.len() ==> colors@[i] == CRYSTAL_COLOR,
                forall|xx: int, yy: int, zz: int| 0 <= xx < 3 && 0 <= yy < 3 && 0 <= zz < 3 && (yy < y || (yy == y && xx < x))
                    ==> solid@[#[trigger] dense_index(dims, xx, yy, zz)] == is_crystal_arm(xx, yy, zz),
            decreases 3 - x,
        {
            let mut z: u32 = 0;
            while z < 3
                invariant
                    y < 3,
                    x < 3,
                    z <= 3,
                    dims[0] == 3 && dims[1] == 3 && dims[2] == 3,
                    arms@.len() == 7,
                    forall|i: int| 0 <= i < 7 ==> is_crystal_arm(arms@[i][0] as int, arms@[i][1] as int, arms@[i][2] as int),
                    forall|x: int, y: int, z: int| is_crystal_arm(x, y, z) ==> exists|i: int| 0 <= i < 7 && arms@[i] == [x as u32, y as u32, z as u32],
                    solid@.len() == y * 9 + x * 3 + z,
                    colors@.len() == solid@.len(),
                    forall|i: int| 0 <= i < colors@.len() ==> colors@[i] == CRYSTAL_COLOR,
                    forall|xx: int, yy: int, zz: int| 0 <= xx < 3 && 0 <= yy < 3 && 0 <= zz < 3 && (yy < y || (yy == y && (xx < x || (xx == x && zz < z))))
                        ==> solid@[#[trigger] dense_index(dims, xx, yy, zz)] == is_crystal_arm(xx, yy, zz),
                decreases 3 - z,
            {
                let mut found = false;
                let mut i: usize = 0;
                while i < arms.len()
                    invariant
                        i <= arms@.len(),
                        arms@.len() == 7,
                        found == exists|j: int| 0 <= j < i && arms@[j] == [x, y, z],
                    decreases arms@.len() - i,
                {
                    let a = arms[i];
                    if a[0] == x && a[1] == y && a[2] == z {
                        found = true;
                    }
                    proof {
                        if a[0] == x && a[1] == y && a[2] == z {
                            assert(arms@[i as int] == [x, y, z]);
                        }
                        if arms@[i as int] == [x, y, z] {
                            assert(a[0] == x && a[1] == y && a[2] == z);
                        }
                    }
                    i = i + 1;
                }
                proof {
                    if is_crystal_arm(x as int, y as int, z as int) {
                        let j = choose|j: int| 0 <= j < 7 && arms@[j] == [x, y, z];
                    }
                    if found {
                        let j = choose|j: int| 0 <= j < 7 && arms@[j] == [x, y, z];
                        assert(is_crystal_arm(arms@[j][0] as int, arms@[j][1] as int, arms@[j][2] as int));
                    }
                    assert(found == is_crystal_arm(x as int, y as int, z as int));
                    assert(dense_index(dims, x as int, y as int, z as int) == solid@.len());
                }
                solid.push(found);
                colors.push(CRYSTAL_COLOR);
                proof {
                    assert forall|xx: int, yy: int, zz: int| 0 <= xx < 3 && 0 <= yy < 3 && 0 <= zz < 3 && (yy < y || (yy == y && (xx < x || (xx == x && zz < z + 1))))
                        implies solid@[#[trigger] dense_index(dims, xx, yy, zz)] == is_crystal_arm(xx, yy, zz) by {
                        assert(dense_index(dims, xx, yy, zz) == (xx + yy * 3) * 3 + zz);
                    }
                }
                z = z + 1;
            }
            x = x + 1;
        }
        y = y + 1;
    }
    let m = VoxelModel::from_dense(dims, &solid, &colors);
    proof {
        assert forall|x: int, y: int, z: int| m.in_bounds(x, y, z) && #[trigger] m.occupied(x, y, z)
            implies m.color_at(x, y, z) == CRYSTAL_COLOR by {
            assert(0 <= dense_index(dims, x, y, z) < 27);
        }
    }
    m
}

/// Colour of a particle voxel at height `z`: bright at `z = 0` (up),
/// darker below, simulating top-down light.
pub open spec fn particle_shade(z: int) -> u32 {
    if z == 0 {
        0x80_D0_D0_D0
    } else if z == 1 {
        0x80_A0_A0_A0
    } else {
        0x80_60_60_60
    }
}

/// 3×3×3 solid cube with a z-gradient baked in: z = 0 is bright, z = 2 is
/// dark, so a tumbling particle cycles its bright and shadowed faces.
pub fn build_particle() -> (m: VoxelModel)
    ensures
        m.wf(),
        m.dims == [3u32, 3, 3],
        m.occ_words_per_col == 1,
        forall|x: int, y: int, z: int| #[trigger] m.in_bounds(x, y, z) ==> m.occupied(x, y, z),
        forall|x: int, y: int, z: int| m.in_bounds(x, y, z) && #[trigger] m.occupied(x, y, z) ==> m.color_at(x, y, z) == particle_shade(z),
        forall|i: int| 0 <= i < m.dirs@.len() ==> m.dirs@[i] == 0,
{
    let dims: [u32; 3] = [3, 3, 3];
    assert(dims[0] == 3 && dims[1] == 3 && dims[2] == 3);
    let z_colors: [u32; 3] = [0x80_D0_D0_D0, 0x80_A0_A0_A0, 0x80_60_60_60];
    let mut solid: Vec<bool> = Vec::new();
    let mut colors: Vec<u32> = Vec::new();
    let mut col: usize = 0;
    while col < 9
        invariant
            col <= 9,
            z_colors@ == seq![0x80_D0_D0_D0u32, 0x80_A0_A0_A0u32, 0x80_60_60_60u32],
            solid@.len() == col * 3,
            colors@.len() == col * 3,
            forall|i: int| 0 <= i < solid@.len() ==> solid@[i],
            forall|i: int| 0 <= i < colors@.len() ==> colors@[i] == particle_shade(i % 3),
        decreases 9 - col,
    {
        let mut z: usize = 0;
        while z < 3
            invariant
                col < 9,
                z <= 3,
                z_colors@ == seq![0x80_D0_D0_D0u32, 0x80_A0_A0_A0u32, 0x80_60_60_60u32],
                solid@.len() == col * 3 + z,
                colors@.len() == col * 3 + z,
                forall|i: int| 0 <= i < solid@.len() ==> solid@[i],
                forall|i: int| 0 <= i < colors@.len() ==> colors@[i] == particle_shade(i % 3),
            decreases 3 - z,
        {
            solid.push(true);
            colors.push(z_colors[z]);
            proof {
                assert((col * 3 + z) % 3 == z as int);
            }
            z = z + 1;
        }
        col = col + 1;
    }
    let m = VoxelModel::from_dense(dims, &solid, &colors);
    proof {
        assert forall|x: int, y: int, z: int| m.in_bounds(x, y, z) && #[trigger] m.occupied(x, y, z)
            implies m.color_at(x, y, z) == particle_shade(z) by {
            assert(0 <= dense_index(dims, x, y, z) < 27);
            assert(dense_index(dims, x, y, z) % 3 == z);
        }
        assert forall|x: int, y: int, z: int| #[trigger] m.in_bounds(x, y, z) implies m.occupied(x, y, z) by {
            assert(0 <= dense_index(dims, x, y, z) < 27);
        }
    }
    m
}

/// A single solid magenta voxel.
pub fn build_projectile() -> (m: VoxelModel)
    ensures
        m.wf(),
        m.dims == [1u32, 1, 1],
        m.occ_words_per_col == 1,
        m.occupied(0, 0, 0),
        m.color_at(0, 0, 0) == PROJECTILE_COLOR,
        forall|i: int| 0 <= i < m.dirs@.len() ==> m.dirs@[i] == 0,
{
    let dims: [u32; 3] = [1, 1, 1];
    let solid = vec![true];
    let colors = vec![PROJECTILE_COLOR];
    let m = VoxelModel::from_dense(dims, &solid, &colors);
    assert(m.in_bounds(0, 0, 0));
    assert(dense_index(dims, 0, 0, 0) == 0);
    m
}

} // verus!
