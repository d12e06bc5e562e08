use vstd::prelude::*;

use roxlap_gpu::SpriteModel;

use crate::voxel_model::{
    bit_set, lemma_clear_bit, lemma_col_bits_below_agree, lemma_col_bits_below_mono,
    lemma_col_bits_one_less, lemma_column_count_is_col_bits, lemma_column_injective,
    lemma_offsets_bounded, lemma_offsets_mono, lemma_rank_in_column, lemma_rank_is_col_bits,
    lemma_voxel_count_zero_iff_empty, lemma_voxel_index, lemma_word_index_bound, lemma_word_index_injective, occ_bit, VoxelModel,
};

verus! {

/// The model that `SpriteModel::set_voxel(x, y, z, None)` leaves behind when
/// it clears the solid voxel `(x, y, z)`: the voxel's occupancy bit is
/// cleared, its colour and normal are removed from the parallel arrays, and
/// every later column starts one colour earlier.
pub open spec fn cleared_voxel(old: VoxelModel, new: VoxelModel, x: int, y: int, z: int) -> bool {
    let col = old.column_of(x, y);
    let wi = old.word_index(col, z / 32);
    let idx = old.color_index(x, y, z);
    &&& new.dims == old.dims
    &&& new.occ_words_per_col == old.occ_words_per_col
    &&& new.occupancy@ == old.occupancy@.update(wi, old.occupancy@[wi] & !(1u32 << ((z % 32) as u32)))
    &&& new.colors@ == old.colors@.remove(idx)
    &&& new.dirs@ == old.dirs@.remove(idx)
    &&& new.color_offsets@ == Seq::new(
        old.color_offsets@.len(),
        |c: int|
            if c > col {
                (old.color_offsets@[c] - 1) as u32
            } else {
                old.color_offsets@[c]
            },
    )
}

/// Clears voxel `(x, y, z)` through `roxlap_gpu::SpriteModel::set_voxel` with
/// no colour. That method leaves the model unchanged and returns `false`
/// when the voxel lies outside `dims` or is already empty; otherwise it
/// clears the voxel as `cleared_voxel` describes and returns `true`. The
/// volume's arrays are moved into a `SpriteModel` for the call and back.
#[verifier::external_body]
fn clear_voxel(model: &mut VoxelModel, x: u32, y: u32, z: u32) -> (changed: bool)
    requires
        old(model).wf(),
    ensures
        changed == (old(model).in_bounds(x as int, y as int, z as int) && old(model).occupied(
            x as int,
            y as int,
            z as int,
        )),
        changed ==> cleared_voxel(*old(model), *final(model), x as int, y as int, z as int),
        !changed ==> *final(model) == *old(model),
{
    let mut sprite = SpriteModel::empty();
    sprite.dims = model.dims;
    sprite.occ_words_per_col = model.occ_words_per_col;
    std::mem::swap(&mut sprite.occupancy, &mut model.occupancy);
    std::mem::swap(&mut sprite.colors, &mut model.colors);
    std::mem::swap(&mut sprite.dirs, &mut model.dirs);
    std::mem::swap(&mut sprite.color_offsets, &mut model.color_offsets);
    let changed = sprite.set_voxel(x, y, z, None);
    std::mem::swap(&mut sprite.occupancy, &mut model.occupancy);
    std::mem::swap(&mut sprite.colors, &mut model.colors);
    std::mem::swap(&mut sprite.dirs, &mut model.dirs);
    std::mem::swap(&mut sprite.color_offsets, &mut model.color_offsets);
    changed
}

/// Bit-level effect of clearing `(x, y, z)`: exactly that bit changes.
proof fn lemma_cleared_bits(old: VoxelModel, new: VoxelModel, x: int, y: int, z: int)
    requires
        old.wf(),
        old.in_bounds(x, y, z),
        cleared_voxel(old, new, x, y, z),
    ensures
        forall|c: int, zz: int|
            0 <= c < old.cols() && 0 <= zz < old.occ_words_per_col * 32 ==> #[trigger] new.col_bit(c, zz)
                == (old.col_bit(c, zz) && !(c == old.column_of(x, y) && zz == z)),
{
    lemma_voxel_index(&old, x, y, z);
    let col = old.column_of(x, y);
    let o = old.occ_words_per_col as int;
    let wi = old.word_index(col, z / 32);
    let w = old.occupancy@[wi];
    lemma_clear_bit(w, (z % 32) as u32);
    assert forall|c: int, zz: int| 0 <= c < old.cols() && 0 <= zz < old.occ_words_per_col * 32
        implies #[trigger] new.col_bit(c, zz) == (old.col_bit(c, zz) && !(c == col && zz == z)) by {
        assert(0 <= zz / 32 < o);
        lemma_word_index_bound(c, zz / 32, old.cols(), o);
        if c * o + zz / 32 == wi {
            lemma_word_index_injective(c, zz / 32, col, z / 32, o);
            assert(new.occupancy@[wi] == w & !(1u32 << ((z % 32) as u32)));
            if zz != z {
                assert(zz % 32 != z % 32);
                assert(bit_set(w & !(1u32 << ((z % 32) as u32)), (zz % 32) as u32) == bit_set(w, (zz % 32) as u32));
            }
        } else {
            assert(new.occupancy@[c * o + zz / 32] == old.occupancy@[c * o + zz / 32]);
            assert(occ_bit(new.occupancy@, o, c, zz) == occ_bit(old.occupancy@, o, c, zz));
        }
    }
}

/// Clearing a solid voxel keeps the model well formed, empties exactly that
/// voxel, keeps every other voxel's colour and drops one colour.
pub proof fn lemma_clear_preserves(old: VoxelModel, new: VoxelModel, x: int, y: int, z: int)
    requires
        old.wf(),
        old.in_bounds(x, y, z),
        old.occupied(x, y, z),
        cleared_voxel(old, new, x, y, z),
    ensures
        new.wf(),
        forall|a: int, b: int, c: int|
            #[trigger] new.in_bounds(a, b, c) ==> new.occupied(a, b, c) == (old.occupied(a, b, c) && !(a
                == x && b == y && c == z)),
        forall|a: int, b: int, c: int|
            new.in_bounds(a, b, c) && #[trigger] new.occupied(a, b, c) ==> new.color_at(a, b, c)
                == old.color_at(a, b, c),
        new.colors@.len() + 1 == old.colors@.len(),
{
    lemma_voxel_index(&old, x, y, z);
    lemma_rank_in_column(&old, x, y, z);
    lemma_cleared_bits(old, new, x, y, z);
    let col = old.column_of(x, y);
    let cols = old.cols();
    let o = old.occ_words_per_col as int;
    let mz = old.dims[2] as int;
    let idx = old.color_index(x, y, z);
    // padding and column counts
    assert forall|c: int| 0 <= c < cols implies #[trigger] new.padding_clear(c) by {
        assert(old.padding_clear(c));
        assert forall|zz: int| mz <= zz < o * 32 implies !#[trigger] new.col_bit(c, zz) by {
            assert(!old.col_bit(c, zz));
        }
    }
    assert forall|c: int| 0 <= c < cols implies #[trigger] new.column_count(c) + (if c == col { 1nat } else { 0nat })
        == old.column_count(c) by {
        assert(old.padding_clear(c));
        assert(new.padding_clear(c));
        lemma_column_count_is_col_bits(&old, c);
        lemma_column_count_is_col_bits(&new, c);
        if c == col {
            assert forall|zz: int| 0 <= zz < mz && zz != z implies old.col_bit(col, zz) == new.col_bit(col, zz) by {
                assert(new.col_bit(col, zz) == (old.col_bit(col, zz) && !(col == col && zz == z)));
            }
            assert(new.col_bit(col, z) == (old.col_bit(col, z) && !(col == col && z == z)));
            lemma_col_bits_one_less(&old, &new, col, z, mz as nat);
        } else {
            assert forall|zz: int| 0 <= zz < mz implies old.col_bit(c, zz) == new.col_bit(c, zz) by {
                assert(new.col_bit(c, zz) == (old.col_bit(c, zz) && !(c == col && zz == z)));
            }
            lemma_col_bits_below_agree(&old, c, &new, c, mz as nat);
        }
    }
    assert(old.color_offsets@[col + 1] >= 1);
    assert forall|c: int| 0 <= c < cols implies new.color_offsets@[c + 1] == new.color_offsets@[c]
        + #[trigger] new.column_count(c) by {
        assert(old.color_offsets@[c + 1] == old.color_offsets@[c] + old.column_count(c));
        assert(new.column_count(c) + (if c == col { 1nat } else { 0nat }) == old.column_count(c));
        if c > col {
            lemma_offsets_mono(&old, col + 1, c);
        }
    }
    assert(new.color_offsets@[cols] == old.color_offsets@[cols] - 1);
    assert(new.wf());
    // occupancy
    assert forall|a: int, b: int, c: int| #[trigger] new.in_bounds(a, b, c)
        implies new.occupied(a, b, c) == (old.occupied(a, b, c) && !(a == x && b == y && c == z)) by {
        lemma_voxel_index(&old, a, b, c);
        assert(new.col_bit(old.column_of(a, b), c) == (old.col_bit(old.column_of(a, b), c) && !(old.column_of(a, b) == col && c == z)));
        if old.column_of(a, b) == col {
            lemma_column_injective(a, b, x, y, old.dims[0] as int);
        }
    }
    // colours
    assert forall|a: int, b: int, c: int| new.in_bounds(a, b, c) && #[trigger] new.occupied(a, b, c)
        implies new.color_at(a, b, c) == old.color_at(a, b, c) by {
        lemma_voxel_index(&old, a, b, c);
        let qc = old.column_of(a, b);
        assert(old.occupied(a, b, c) && !(a == x && b == y && c == z));
        lemma_rank_in_column(&old, a, b, c);
        let oi = old.color_index(a, b, c);
        lemma_rank_is_col_bits(&old, a, b, c);
        lemma_rank_is_col_bits(&new, a, b, c);
        if qc != col {
            assert forall|zz: int| 0 <= zz < c implies old.col_bit(qc, zz) == new.col_bit(qc, zz) by {
                assert(new.col_bit(qc, zz) == (old.col_bit(qc, zz) && !(qc == col && zz == z)));
            }
            lemma_col_bits_below_agree(&old, qc, &new, qc, c as nat);
            assert(new.rank(a, b, c) == old.rank(a, b, c));
            if qc < col {
                lemma_offsets_mono(&old, qc + 1, col);
                assert(oi < idx);
                assert(new.color_index(a, b, c) == oi);
            } else {
                lemma_offsets_mono(&old, col + 1, qc);
                assert(oi > idx);
                assert(new.color_index(a, b, c) == oi - 1);
            }
        } else {
            lemma_column_injective(a, b, x, y, old.dims[0] as int);
            assert(c != z);
            lemma_rank_is_col_bits(&old, x, y, z);
            assert forall|zz: int| 0 <= zz < c && zz != z implies old.col_bit(col, zz) == new.col_bit(col, zz) by {
                assert(new.col_bit(col, zz) == (old.col_bit(col, zz) && !(col == col && zz == z)));
            }
            assert(new.col_bit(col, z) == (old.col_bit(col, z) && !(col == col && z == z)));
            lemma_col_bits_one_less(&old, &new, col, z, c as nat);
            if c < z {
                assert(new.rank(a, b, c) == old.rank(a, b, c));
                lemma_col_bits_below_mono(&old, col, (c + 1) as nat, z as nat);
                assert(old.col_bits_below(col, (c + 1) as nat) == old.col_bits_below(col, c as nat) + 1);
                assert(oi < idx);
                assert(new.color_index(a, b, c) == oi);
            } else {
                assert(new.rank(a, b, c) + 1 == old.rank(a, b, c));
                lemma_col_bits_below_mono(&old, col, (z + 1) as nat, c as nat);
                assert(old.col_bits_below(col, (z + 1) as nat) == old.col_bits_below(col, z as nat) + 1);
                assert(oi > idx);
                assert(new.color_index(a, b, c) == oi - 1);
            }
        }
    }
}

/// Voxel `(a, b, c)` lies in the closed ball of `radius` voxels around
/// `center`.
pub open spec fn in_carve_ball(center: [i32; 3], radius: int, a: int, b: int, c: int) -> bool {
    (a - center[0]) * (a - center[0]) + (b - center[1]) * (b - center[1]) + (c - center[2]) * (c
        - center[2]) <= radius * radius
}

/// The offset of `(a, b, c)` from `center`, ordered by z, then y, then x,
/// comes before `(dx, dy, dz)`.
pub open spec fn zyx_before(center: [i32; 3], a: int, b: int, c: int, dz: int, dy: int, dx: int) -> bool {
    let ox = a - center[0];
    let oy = b - center[1];
    let oz = c - center[2];
    oz < dz || (oz == dz && (oy < dy || (oy == dy && ox < dx)))
}

/// `cur` is `old` with the ball voxels that come before `(dz, dy, dx)`
/// cleared and every remaining colour kept.
pub open spec fn carved_up_to(
    old: VoxelModel,
    cur: VoxelModel,
    center: [i32; 3],
    radius: int,
    dz: int,
    dy: int,
    dx: int,
) -> bool {
    &&& cur.wf()
    &&& cur.dims == old.dims
    &&& cur.occ_words_per_col == old.occ_words_per_col
    &&& forall|a: int, b: int, c: int|
        #[trigger] cur.in_bounds(a, b, c) ==> cur.occupied(a, b, c) == (old.occupied(a, b, c) && !(
        in_carve_ball(center, radius, a, b, c) && zyx_before(center, a, b, c, dz, dy, dx)))
    &&& forall|a: int, b: int, c: int|
        cur.in_bounds(a, b, c) && #[trigger] cur.occupied(a, b, c) ==> cur.color_at(a, b, c)
            == old.color_at(a, b, c)
}

/// A voxel with an axis offset beyond `r` lies outside the ball.
proof fn lemma_outside_ball(center: [i32; 3], r: int, a: int, b: int, c: int)
    requires
        0 <= r,
        a - center[0] < -r || a - center[0] > r || b - center[1] < -r || b - center[1] > r || c
            - center[2] < -r || c - center[2] > r,
    ensures
        !in_carve_ball(center, r, a, b, c),
{
    let p = a - center[0];
    let q = b - center[1];
    let t = c - center[2];
    assert(p * p + q * q + t * t > r * r) by (nonlinear_arith)
        requires
            0 <= r,
            p < -r || p > r || q < -r || q > r || t < -r || t > r;
}

/// Moving the cursor past the end of a row (or plane) changes nothing.
proof fn lemma_carved_skip(
    old: VoxelModel,
    cur: VoxelModel,
    center: [i32; 3],
    r: int,
    dz1: int,
    dy1: int,
    dx1: int,
    dz2: int,
    dy2: int,
    dx2: int,
)
    requires
        0 <= r,
        carved_up_to(old, cur, center, r, dz1, dy1, dx1),
        forall|a: int, b: int, c: int|
            in_carve_ball(center, r, a, b, c) ==> (zyx_before(center, a, b, c, dz1, dy1, dx1)
                <==> zyx_before(center, a, b, c, dz2, dy2, dx2)),
    ensures
        carved_up_to(old, cur, center, r, dz2, dy2, dx2),
{
}

/// Carve a ball of `radius` voxels centred on `center` out of `model` in
/// place (voxels outside the volume are skipped). Returns `(is_empty,
/// count)`, the remaining voxel count and whether it is zero.
pub fn carve_sphere(model: &mut VoxelModel, center: [i32; 3], radius: u32) -> (res: (bool, u32))
    requires
        old(model).wf(),
        radius <= i32::MAX ==> radius * radius <= 715_827_882 && i32::MIN <= center[0] - radius
            && center[0] + radius <= i32::MAX && i32::MIN <= center[1] - radius && center[1]
            + radius <= i32::MAX && i32::MIN <= center[2] - radius && center[2] + radius <= i32::MAX,
    ensures
        final(model).wf(),
        final(model).dims == old(model).dims,
        final(model).occ_words_per_col == old(model).occ_words_per_col,
        forall|a: int, b: int, c: int| #[trigger] final(model).in_bounds(a, b, c)
            ==> final(model).occupied(a, b, c) == (old(model).occupied(a, b, c)
                && !(radius <= i32::MAX && in_carve_ball(center, radius as int, a, b, c))),
        forall|a: int, b: int, c: int| final(model).in_bounds(a, b, c) && #[trigger] final(model).occupied(a, b, c)
            ==> final(model).color_at(a, b, c) == old(model).color_at(a, b, c),
        res.1 == final(model).colors@.len(),
        res.0 == (res.1 == 0),
        res.0 <==> forall|a: int, b: int, c: int| #[trigger] final(model).in_bounds(a, b, c) ==> !final(model).occupied(a, b, c),
{
    let ghost start = *model;
    if radius > 0x7fff_ffff {
        proof {
            lemma_offsets_bounded(&start, start.cols());
            lemma_voxel_count_zero_iff_empty(&start);
        }
        let count = model.colors.len() as u32;
        return (count == 0, count);
    }
    let r = radius as i32;
    let ghost ri = r as int;
    assert(r <= 26_754) by (nonlinear_arith)
        requires 0 <= r, r * r <= 715_827_882;
    let r2 = r * r;
    proof {
        assert forall|a: int, b: int, c: int| in_carve_ball(center, ri, a, b, c)
            implies !zyx_before(center, a, b, c, -ri, -ri, -ri) by {
            if zyx_before(center, a, b, c, -ri, -ri, -ri) {
                lemma_outside_ball(center, ri, a, b, c);
            }
        }
    }
    let mut dz: i32 = -r;
    while dz <= r
        invariant
            0 <= r <= 26_754,
            ri == r,
            r2 == r * r,
            r * r <= 715_827_882,
            i32::MIN <= center[0] - r && center[0] + r <= i32::MAX,
            i32::MIN <= center[1] - r && center[1] + r <= i32::MAX,
            i32::MIN <= center[2] - r && center[2] + r <= i32::MAX,
            -r <= dz <= r + 1,
            carved_up_to(start, *model, center, ri, dz as int, -ri, -ri),
        decreases r + 1 - dz,
    {
        let mut dy: i32 = -r;
        while dy <= r
            invariant
                0 <= r <= 26_754,
                ri == r,
                r2 == r * r,
                r * r <= 715_827_882,
                i32::MIN <= center[0] - r && center[0] + r <= i32::MAX,
                i32::MIN <= center[1] - r && center[1] + r <= i32::MAX,
                i32::MIN <= center[2] - r && center[2] + r <= i32::MAX,
                -r <= dz <= r,
                -r <= dy <= r + 1,
                carved_up_to(start, *model, center, ri, dz as int, dy as int, -ri),
            decreases r + 1 - dy,
        {
            let mut dx: i32 = -r;
            while dx <= r
                invariant
                    0 <= r <= 26_754,
                    ri == r,
                    r2 == r * r,
                    r * r <= 715_827_882,
                r * r <= 715_827_882,
                    i32::MIN <= center[0] - r && center[0] + r <= i32::MAX,
                    i32::MIN <= center[1] - r && center[1] + r <= i32::MAX,
                    i32::MIN <= center[2] - r && center[2] + r <= i32::MAX,
                    -r <= dz <= r,
                    -r <= dy <= r,
                    -r <= dx <= r + 1,
                    carved_up_to(start, *model, center, ri, dz as int, dy as int, dx as int),
                decreases r + 1 - dx,
            {
                let ghost before = *model;
                assert(0 <= dx * dx <= r * r) by (nonlinear_arith)
                    requires -r <= dx <= r;
                assert(0 <= dy * dy <= r * r) by (nonlinear_arith)
                    requires -r <= dy <= r;
                assert(0 <= dz * dz <= r * r) by (nonlinear_arith)
                    requires -r <= dz <= r;
                let cx = center[0] + dx;
                let cy = center[1] + dy;
                let cz = center[2] + dz;
                let hit = dx * dx + dy * dy + dz * dz <= r2;
                proof {
                    assert(hit == in_carve_ball(center, ri, cx as int, cy as int, cz as int));
                }
                if hit && cx >= 0 && cy >= 0 && cz >= 0 && (cx as u32) < model.dims[0] && (cy as u32)
                    < model.dims[1] && (cz as u32) < model.dims[2] {
                    let changed = clear_voxel(model, cx as u32, cy as u32, cz as u32);
                    if changed {
                        proof {
                            lemma_clear_preserves(before, *model, cx as int, cy as int, cz as int);
                        }
                    }
                }
                proof {
                    assert forall|a: int, b: int, c: int| #[trigger] model.in_bounds(a, b, c)
                        implies model.occupied(a, b, c) == (start.occupied(a, b, c) && !(
                        in_carve_ball(center, ri, a, b, c) && zyx_before(center, a, b, c, dz as int, dy as int, dx + 1))) by {
                        assert(before.in_bounds(a, b, c));
                    }
                    assert forall|a: int, b: int, c: int| model.in_bounds(a, b, c) && #[trigger] model.occupied(a, b, c)
                        implies model.color_at(a, b, c) == start.color_at(a, b, c) by {
                        assert(before.in_bounds(a, b, c));
                    }
                }
                dx = dx + 1;
            }
            proof {
                assert forall|a: int, b: int, c: int| in_carve_ball(center, ri, a, b, c)
                    implies (zyx_before(center, a, b, c, dz as int, dy as int, dx as int)
                    <==> zyx_before(center, a, b, c, dz as int, dy + 1, -ri)) by {
                    if a - center[0] > ri || a - center[0] < -ri {
                        lemma_outside_ball(center, ri, a, b, c);
                    }
                }
                lemma_carved_skip(start, *model, center, ri, dz as int, dy as int, dx as int, dz as int, dy + 1, -ri);
            }
            dy = dy + 1;
        }
        proof {
            assert forall|a: int, b: int, c: int| in_carve_ball(center, ri, a, b, c)
                implies (zyx_before(center, a, b, c, dz as int, dy as int, -ri)
                <==> zyx_before(center, a, b, c, dz + 1, -ri, -ri)) by {
                if b - center[1] > ri || b - center[1] < -ri || a - center[0] < -ri {
                    lemma_outside_ball(center, ri, a, b, c);
                }
            }
            lemma_carved_skip(start, *model, center, ri, dz as int, dy as int, -ri, dz + 1, -ri, -ri);
        }
        dz = dz + 1;
    }
    proof {
        assert forall|a: int, b: int, c: int| #[trigger] model.in_bounds(a, b, c)
            implies model.occupied(a, b, c) == (start.occupied(a, b, c) && !(radius <= i32::MAX
            && in_carve_ball(center, radius as int, a, b, c))) by {
            if in_carve_ball(center, ri, a, b, c) {
                if c - center[2] > ri || b - center[1] < -ri || a - center[0] < -ri {
                    lemma_outside_ball(center, ri, a, b, c);
                }
                assert(zyx_before(center, a, b, c, dz as int, -ri, -ri));
            }
        }
        lemma_offsets_bounded(&*model, model.cols());
        lemma_voxel_count_zero_iff_empty(&*model);
    }
    let count = model.colors.len() as u32;
    (count == 0, count)
}

} // verus!
