use vstd::prelude::*;

use crate::voxel_edit::in_carve_ball;

verus! {

/// Marks an asteroid entity.
pub struct AsteroidMarker;

/// Marks a crystal entity.
pub struct CrystalMarker;

/// Dense sprite-registry index of an entity's voxel model.
pub struct ChainId(pub u32);

/// Seed for all procedural world generation (chunk density noise, asteroid
/// properties).
pub struct WorldSeed(pub u64);

/// Tombstoned sprite models accumulated since the last compaction.
pub struct PendingCompact(pub u32);

/// Voxel count of the asteroid at spawn time; used to trigger
/// auto-destruction once more than 20 % of the volume has been carved away.
pub struct AsteroidVoxelInfo {
    pub initial_count: u32,
}

/// Voxel radius of the crater carved on each hit.
pub const HIT_CARVE_RADIUS: u32 = 4;

/// Model-local voxel coordinates of embedded mineral cores. Each point spawns
/// a crystal when the carve sphere reaches it.
pub struct AsteroidMinerals {
    pub points: Vec<[u32; 3]>,
}

/// Mineral point `p` lies within `radius` voxels of `center`.
pub open spec fn mineral_hit(center: [i32; 3], radius: u32, p: [u32; 3]) -> bool {
    in_carve_ball(center, radius as int, p[0] as int, p[1] as int, p[2] as int)
}

/// The predicate `mineral_hit(center, radius, _)`.
pub open spec fn mineral_filter(center: [i32; 3], radius: u32) -> spec_fn([u32; 3]) -> bool {
    |p: [u32; 3]| mineral_hit(center, radius, p)
}

/// The predicate `not_listed(list, _)`.
pub open spec fn unlisted_filter(list: Seq<[u32; 3]>) -> spec_fn([u32; 3]) -> bool {
    |p: [u32; 3]| not_listed(list, p)
}

/// Return the minerals whose voxel lies within `radius` of `center`, in
/// the order they are given in.
pub fn minerals_in_radius(minerals: &Vec<[u32; 3]>, center: [i32; 3], radius: u32) -> (hit: Vec<[u32; 3]>)
    ensures
        hit@ == minerals@.filter(mineral_filter(center, radius)),
{
    let r = radius as i128;
    assert(0 <= r * r <= 0x1_0000_0000_0000_0000) by (nonlinear_arith)
        requires 0 <= r <= 0x1_0000_0000;
    let r2 = r * r;
    let mut hit: Vec<[u32; 3]> = Vec::new();
    let mut i: usize = 0;
    while i < minerals.len()
        invariant
            i <= minerals@.len(),
            r == radius,
            r2 == r * r,
            hit@ == minerals@.take(i as int).filter(mineral_filter(center, radius)),
        decreases minerals@.len() - i,
    {
        let p = minerals[i];
        let dx = p[0] as i128 - center[0] as i128;
        let dy = p[1] as i128 - center[1] as i128;
        let dz = p[2] as i128 - center[2] as i128;
        assert(0 <= dx * dx <= 0x4_0000_0000_0000_0000) by (nonlinear_arith)
            requires -0x2_0000_0000 <= dx <= 0x2_0000_0000;
        assert(0 <= dy * dy <= 0x4_0000_0000_0000_0000) by (nonlinear_arith)
            requires -0x2_0000_0000 <= dy <= 0x2_0000_0000;
        assert(0 <= dz * dz <= 0x4_0000_0000_0000_0000) by (nonlinear_arith)
            requires -0x2_0000_0000 <= dz <= 0x2_0000_0000;
        if dx * dx + dy * dy + dz * dz <= r2 {
            hit.push(p);
        }
        proof {
            reveal(Seq::filter);
            let s = minerals@.take(i + 1);
            assert(s.drop_last() =~= minerals@.take(i as int));
            assert(s.last() == p);
            assert(s.filter(mineral_filter(center, radius)) == if mineral_filter(center, radius)(p) {
                s.drop_last().filter(mineral_filter(center, radius)).push(p)
            } else {
                s.drop_last().filter(mineral_filter(center, radius))
            });
        }
        i = i + 1;
    }
    proof {
        assert(minerals@.take(minerals@.len() as int) =~= minerals@);
    }
    hit
}

/// `p` does not occur in `list`.
pub open spec fn not_listed(list: Seq<[u32; 3]>, p: [u32; 3]) -> bool {
    !list.contains(p)
}

impl AsteroidMinerals {
    /// Drop every point that occurs in `hit`, keeping the others in order.
    pub fn remove_points(&mut self, hit: &Vec<[u32; 3]>)
        ensures
            final(self).points@ == old(self).points@.filter(unlisted_filter(hit@)),
    {
        let mut kept: Vec<[u32; 3]> = Vec::new();
        let mut i: usize = 0;
        while i < self.points.len()
            invariant
                i <= self.points@.len(),
                self.points@ == old(self).points@,
                kept@ == self.points@.take(i as int).filter(unlisted_filter(hit@)),
            decreases self.points@.len() - i,
        {
            let p = self.points[i];
            let mut found = false;
            let mut j: usize = 0;
            while j < hit.len()
                invariant
                    j <= hit@.len(),
                    found == exists|k: int| 0 <= k < j && hit@[k] == p,
                decreases hit@.len() - j,
            {
                let q = hit[j];
                if q[0] == p[0] && q[1] == p[1] && q[2] == p[2] {
                    found = true;
                }
                proof {
                    if q[0] == p[0] && q[1] == p[1] && q[2] == p[2] {
                        assert(hit@[j as int] =~= p);
                    }
                }
                j = j + 1;
            }
            if !found {
                kept.push(p);
            }
            proof {
                assert(found == hit@.contains(p));
                reveal(Seq::filter);
                let s = self.points@.take(i + 1);
                assert(s.drop_last() =~= self.points@.take(i as int));
                assert(s.last() == p);
                assert(s.filter(unlisted_filter(hit@)) == if unlisted_filter(hit@)(p) {
                    s.drop_last().filter(unlisted_filter(hit@)).push(p)
                } else {
                    s.drop_last().filter(unlisted_filter(hit@))
                });
            }
            i = i + 1;
        }
        proof {
            assert(self.points@.take(self.points@.len() as int) =~= self.points@);
        }
        self.points = kept;
    }
}

/// Whether a carve destroys the asteroid: it emptied the model, or more
/// than a fifth of the spawn-time voxels have been carved away (fewer than
/// four fifths remain).
pub fn carve_destroys(empty: bool, remaining: u32, initial_count: u32) -> (d: bool)
    ensures
        d == (empty || remaining * 5 < initial_count * 4),
{
    empty || (remaining as u64) * 5 < (initial_count as u64) * 4
}

} // verus!
