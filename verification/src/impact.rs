use vstd::prelude::*;

use crate::asteroid::{
    carve_destroys, mineral_filter, minerals_in_radius, unlisted_filter, AsteroidMinerals,
    HIT_CARVE_RADIUS,
};
use crate::voxel_edit::{carve_sphere, in_carve_ball};
use crate::voxel_model::VoxelModel;

verus! {

/// What a projectile hit does to an asteroid.
#[derive(Debug)]
pub struct HitOutcome {
    /// The asteroid is destroyed and must be despawned.
    pub destroy: bool,
    /// Mineral points that release a crystal.
    pub crystals: Vec<[u32; 3]>,
}

/// Carve the crater of a hit at voxel `hit_voxel` and settle its
/// consequences: the asteroid is destroyed when the crater empties it or
/// when more than a fifth of its `initial_count` voxels have been carved
/// away. A destroyed
/// asteroid releases every remaining mineral as a crystal (the killing blow
/// never swallows crystals); otherwise only the minerals inside the crater
/// are released and removed from the asteroid.
pub fn resolve_hit(
    model: &mut VoxelModel,
    minerals: &mut AsteroidMinerals,
    hit_voxel: [u32; 3],
    initial_count: u32,
) -> (out: HitOutcome)
    requires
        old(model).wf(),
        hit_voxel[0] <= i32::MAX - HIT_CARVE_RADIUS,
        hit_voxel[1] <= i32::MAX - HIT_CARVE_RADIUS,
        hit_voxel[2] <= i32::MAX - HIT_CARVE_RADIUS,
    ensures
        ({
            let center = [hit_voxel[0] as i32, hit_voxel[1] as i32, hit_voxel[2] as i32];
            &&& final(model).wf()
            &&& final(model).dims == old(model).dims
            &&& forall|a: int, b: int, c: int| #[trigger] final(model).in_bounds(a, b, c)
                ==> final(model).occupied(a, b, c) == (old(model).occupied(a, b, c)
                    && !in_carve_ball(center, HIT_CARVE_RADIUS as int, a, b, c))
            &&& forall|a: int, b: int, c: int| final(model).in_bounds(a, b, c) && #[trigger] final(model).occupied(a, b, c)
                ==> final(model).color_at(a, b, c) == old(model).color_at(a, b, c)
            &&& out.destroy == (final(model).colors@.len() == 0 || final(model).colors@.len() * 5 < initial_count * 4)
            &&& out.destroy ==> out.crystals@ == old(minerals).points@ && final(minerals).points@ == old(minerals).points@
            &&& !out.destroy ==> out.crystals@ == old(minerals).points@.filter(mineral_filter(center, HIT_CARVE_RADIUS))
                && final(minerals).points@ == old(minerals).points@.filter(unlisted_filter(out.crystals@))
        }),
{
    let center: [i32; 3] = [hit_voxel[0] as i32, hit_voxel[1] as i32, hit_voxel[2] as i32];
    let hit = minerals_in_radius(&minerals.points, center, HIT_CARVE_RADIUS);
    let (empty, count) = carve_sphere(model, center, HIT_CARVE_RADIUS);
    let destroy = carve_destroys(empty, count, initial_count);
    if destroy {
        let mut all: Vec<[u32; 3]> = Vec::new();
        let mut i: usize = 0;
        while i < minerals.points.len()
            invariant
                i <= minerals.points@.len(),
                all@ == minerals.points@.take(i as int),
            decreases minerals.points@.len() - i,
        {
            all.push(minerals.points[i]);
            proof {
                assert(all@ =~= minerals.points@.take(i + 1));
            }
            i = i + 1;
        }
        proof {
            assert(all@ =~= minerals.points@);
        }
        HitOutcome { destroy, crystals: all }
    } else {
        minerals.remove_points(&hit);
        HitOutcome { destroy, crystals: hit }
    }
}

/// Asteroid `a` is the first asteroid that row `row` (one projectile's hit
/// tests, one per asteroid in order) reports a hit on.
pub open spec fn first_hit_at(row: Seq<Option<[u32; 3]>>, a: int) -> bool {
    &&& 0 <= a < row.len()
    &&& row[a] is Some
    &&& forall|j: int| 0 <= j < a ==> row[j] is None
}

/// Row `row` reports no hit at all.
pub open spec fn misses_all(row: Seq<Option<[u32; 3]>>) -> bool {
    forall|j: int| 0 <= j < row.len() ==> row[j] is None
}

/// Projectile `p` is live and its first hit is asteroid `a`.
pub open spec fn strikes(expired: Seq<bool>, hits: Seq<Vec<Option<[u32; 3]>>>, p: int, a: int) -> bool {
    !expired[p] && first_hit_at(hits[p]@, a)
}

/// Projectile `p` is the earliest projectile that strikes asteroid `a`.
pub open spec fn first_striker(expired: Seq<bool>, hits: Seq<Vec<Option<[u32; 3]>>>, p: int, a: int) -> bool {
    &&& 0 <= p < hits.len()
    &&& strikes(expired, hits, p, a)
    &&& forall|q: int| 0 <= q < p ==> !strikes(expired, hits, q, a)
}

/// Projectile `p` leaves the world this frame: it expired or hit something.
pub open spec fn projectile_spent(expired: Seq<bool>, hits: Seq<Vec<Option<[u32; 3]>>>, p: int) -> bool {
    expired[p] || !misses_all(hits[p]@)
}

/// A projectile that strikes an asteroid has an earliest striker of it.
proof fn lemma_first_striker_exists(expired: Seq<bool>, hits: Seq<Vec<Option<[u32; 3]>>>, q: int, a: int)
    requires
        0 <= q < hits.len(),
        strikes(expired, hits, q, a),
    ensures
        exists|q0: int| 0 <= q0 <= q && first_striker(expired, hits, q0, a),
    decreases q,
{
    if forall|q1: int| 0 <= q1 < q ==> !strikes(expired, hits, q1, a) {
        assert(first_striker(expired, hits, q, a));
    } else {
        let q1 = choose|q1: int| 0 <= q1 < q && strikes(expired, hits, q1, a);
        lemma_first_striker_exists(expired, hits, q1, a);
        let q0 = choose|q0: int| 0 <= q0 <= q1 && first_striker(expired, hits, q0, a);
        assert(0 <= q0 <= q && first_striker(expired, hits, q0, a));
    }
}

/// One asteroid struck this frame.
#[derive(Clone, Copy, Debug, PartialEq, Eq)]
pub struct Strike {
    /// Index of the asteroid.
    pub asteroid: usize,
    /// Index of the projectile whose impact counts.
    pub projectile: usize,
    /// Voxel of the asteroid that was hit.
    pub voxel: [u32; 3],
}

/// What a frame of projectile flight leaves behind.
#[derive(Debug)]
pub struct SettledShots {
    /// Projectiles to despawn, in order.
    pub spent: Vec<usize>,
    /// Asteroids struck, in projectile order.
    pub strikes: Vec<Strike>,
}

/// Settle a frame of projectile flight. `expired[p]` tells whether
/// projectile `p` has run out of lifetime and `hits[p][a]` the voxel, if any,
/// at which it hits asteroid `a`. An expired projectile just vanishes; a live
/// one stops at the first asteroid it hits (in asteroid order) and vanishes
/// too. Each struck asteroid takes the impact of the earliest projectile that
/// stops in it; later ones in the same frame are absorbed without effect.
pub fn settle_projectiles(expired: &Vec<bool>, hits: &Vec<Vec<Option<[u32; 3]>>>) -> (out: SettledShots)
    requires
        expired@.len() == hits@.len(),
    ensures
        forall|i: int, j: int| 0 <= i < j < out.spent@.len() ==> out.spent@[i] < out.spent@[j],
        forall|i: int| 0 <= i < out.spent@.len() ==> out.spent@[i] < hits@.len() && projectile_spent(expired@, hits@, out.spent@[i] as int),
        forall|q: int| 0 <= q < hits@.len() && projectile_spent(expired@, hits@, q) ==> out.spent@.contains(q as usize),
        forall|i: int, j: int| 0 <= i < j < out.strikes@.len() ==> out.strikes@[i].projectile < out.strikes@[j].projectile,
        forall|k: int| 0 <= k < out.strikes@.len() ==> {
            let s = #[trigger] out.strikes@[k];
            &&& first_striker(expired@, hits@, s.projectile as int, s.asteroid as int)
            &&& hits@[s.projectile as int]@[s.asteroid as int] == Some(s.voxel)
        },
        forall|q: int, a: int| #[trigger] first_striker(expired@, hits@, q, a) ==> exists|k: int|
            0 <= k < out.strikes@.len() && #[trigger] out.strikes@[k].projectile == q && out.strikes@[k].asteroid == a,
        forall|i: int, j: int| 0 <= i < j < out.strikes@.len() ==> out.strikes@[i].asteroid != out.strikes@[j].asteroid,
{
    let mut spent: Vec<usize> = Vec::new();
    let mut strikes_out: Vec<Strike> = Vec::new();
    let mut p: usize = 0;
    while p < hits.len()
        invariant
            expired@.len() == hits@.len(),
            p <= hits@.len(),
            forall|i: int, j: int| 0 <= i < j < spent@.len() ==> spent@[i] < spent@[j],
            forall|i: int| 0 <= i < spent@.len() ==> spent@[i] < p && projectile_spent(expired@, hits@, spent@[i] as int),
            forall|q: int| 0 <= q < p && projectile_spent(expired@, hits@, q) ==> spent@.contains(q as usize),
            forall|i: int, j: int| 0 <= i < j < strikes_out@.len() ==> strikes_out@[i].projectile < strikes_out@[j].projectile,
            forall|k: int| 0 <= k < strikes_out@.len() ==> {
                let s = #[trigger] strikes_out@[k];
                &&& s.projectile < p
                &&& first_striker(expired@, hits@, s.projectile as int, s.asteroid as int)
                &&& hits@[s.projectile as int]@[s.asteroid as int] == Some(s.voxel)
            },
            forall|q: int, a: int| 0 <= q < p && first_striker(expired@, hits@, q, a) ==> exists|k: int|
                0 <= k < strikes_out@.len() && #[trigger] strikes_out@[k].projectile == q && strikes_out@[k].asteroid == a,
        decreases hits@.len() - p,
    {
        if expired[p] {
            let ghost before = spent@;
            spent.push(p);
            proof {
                assert forall|q: int| 0 <= q < p + 1 && projectile_spent(expired@, hits@, q) implies spent@.contains(q as usize) by {
                    if q == p {
                        assert(spent@[spent@.len() - 1] == p);
                    } else {
                        assert(before.contains(q as usize));
                        let i = choose|i: int| 0 <= i < before.len() && before[i] == q as usize;
                        assert(spent@[i] == q as usize);
                    }
                }
                assert forall|q: int, a: int| 0 <= q < p + 1 && first_striker(expired@, hits@, q, a) implies exists|k: int|
                    0 <= k < strikes_out@.len() && #[trigger] strikes_out@[k].projectile == q && strikes_out@[k].asteroid == a by {
                    assert(q < p);
                }
            }
        } else {
            let row = &hits[p];
            let mut a: usize = 0;
            let mut found: Option<(usize, [u32; 3])> = None;
            while a < row.len()
                invariant_except_break
                    found is None,
                invariant
                    a <= row@.len(),
                    forall|j: int| 0 <= j < a ==> row@[j] is None,
                ensures
                    match found {
                        Some((fa, v)) => first_hit_at(row@, fa as int) && row@[fa as int] == Some(v),
                        None => misses_all(row@),
                    },
                decreases row@.len() - a,
            {
                match row[a] {
                    Some(v) => {
                        found = Some((a, v));
                        break;
                    },
                    None => {},
                }
                a = a + 1;
            }
            match found {
                Some((fa, v)) => {
                    let ghost before = spent@;
                    spent.push(p);
                    let mut k: usize = 0;
                    let mut dup = false;
                    while k < strikes_out.len()
                        invariant_except_break
                            !dup,
                        invariant
                            k <= strikes_out@.len(),
                            forall|j: int| 0 <= j < k ==> strikes_out@[j].asteroid != fa,
                        ensures
                            dup ==> exists|j: int| 0 <= j < strikes_out@.len() && strikes_out@[j].asteroid == fa,
                            !dup ==> forall|j: int| 0 <= j < strikes_out@.len() ==> strikes_out@[j].asteroid != fa,
                        decreases strikes_out@.len() - k,
                    {
                        if strikes_out[k].asteroid == fa {
                            dup = true;
                            break;
                        }
                        k = k + 1;
                    }
                    proof {
                        assert(strikes(expired@, hits@, p as int, fa as int));
                        if !dup {
                            assert forall|q: int| 0 <= q < p implies !strikes(expired@, hits@, q, fa as int) by {
                                if strikes(expired@, hits@, q, fa as int) {
                                    lemma_first_striker_exists(expired@, hits@, q, fa as int);
                                    let q0 = choose|q0: int| 0 <= q0 <= q && first_striker(expired@, hits@, q0, fa as int);
                                    let k0 = choose|k: int| 0 <= k < strikes_out@.len() && #[trigger] strikes_out@[k].projectile == q0
                                        && strikes_out@[k].asteroid == fa;
                                    assert(strikes_out@[k0].asteroid == fa);
                                }
                            }
                        }
                    }
                    let ghost prev_strikes = strikes_out@;
                    if !dup {
                        strikes_out.push(Strike { asteroid: fa, projectile: p, voxel: v });
                    }
                    proof {
                        assert forall|q: int, a: int| 0 <= q < p + 1 && first_striker(expired@, hits@, q, a) implies exists|k: int|
                            0 <= k < strikes_out@.len() && #[trigger] strikes_out@[k].projectile == q && strikes_out@[k].asteroid == a by {
                            if q == p {
                                assert(a == fa);
                                if dup {
                                    let j = choose|j: int| 0 <= j < prev_strikes.len() && prev_strikes[j].asteroid == fa;
                                    assert(first_striker(expired@, hits@, prev_strikes[j].projectile as int, fa as int));
                                    assert(false);
                                }
                                assert(strikes_out@[prev_strikes.len() as int].projectile == q);
                            } else {
                                let k0 = choose|k: int| 0 <= k < prev_strikes.len() && #[trigger] prev_strikes[k].projectile == q
                                    && prev_strikes[k].asteroid == a;
                                assert(strikes_out@[k0] == prev_strikes[k0]);
                            }
                        }
                        assert forall|q: int| 0 <= q < p + 1 && projectile_spent(expired@, hits@, q) implies spent@.contains(q as usize) by {
                            if q == p {
                                assert(spent@[spent@.len() - 1] == p);
                            } else {
                                assert(before.contains(q as usize));
                                let i = choose|i: int| 0 <= i < before.len() && before[i] == q as usize;
                                assert(spent@[i] == q as usize);
                            }
                        }
                    }
                },
                None => {
                    proof {
                        assert(!projectile_spent(expired@, hits@, p as int));
                        assert forall|q: int, a: int| 0 <= q < p + 1 && first_striker(expired@, hits@, q, a) implies exists|k: int|
                            0 <= k < strikes_out@.len() && #[trigger] strikes_out@[k].projectile == q && strikes_out@[k].asteroid == a by {
                            if q == p {
                                assert(hits@[p as int]@[a] is None);
                            }
                        }
                    }
                },
            }
        }
        p = p + 1;
    }
    let out = SettledShots { spent, strikes: strikes_out };
    proof {
        assert forall|q: int, a: int| #[trigger] first_striker(expired@, hits@, q, a) implies exists|k: int|
            0 <= k < out.strikes@.len() && #[trigger] out.strikes@[k].projectile == q && out.strikes@[k].asteroid == a by {
            assert(0 <= q < p);
            let k0 = choose|k: int| 0 <= k < out.strikes@.len() && #[trigger] out.strikes@[k].projectile == q
                && out.strikes@[k].asteroid == a;
            assert(out.strikes@[k0].asteroid == a);
        }
        assert forall|i: int, j: int| 0 <= i < j < out.strikes@.len() implies out.strikes@[i].asteroid != out.strikes@[j].asteroid by {
            let si = out.strikes@[i];
            let sj = out.strikes@[j];
            if si.asteroid == sj.asteroid {
                assert(strikes(expired@, hits@, si.projectile as int, si.asteroid as int));
                assert(si.projectile < sj.projectile);
                assert(!strikes(expired@, hits@, si.projectile as int, sj.asteroid as int));
            }
        }
    }
    out
}

} // verus!
