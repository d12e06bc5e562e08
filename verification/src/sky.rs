use vstd::prelude::*;

use vstd::arithmetic::div_mod::{lemma_mod_equivalence, lemma_mod_multiples_vanish, lemma_small_mod};

verus! {

/// Columns of the 1024×512 star panorama (elevation).
pub const SKY_WIDTH: i32 = 1024;

/// Rows of the 1024×512 star panorama (azimuth).
pub const SKY_HEIGHT: i32 = 512;

/// Stars scattered over the panorama.
pub const STAR_COUNT: u32 = 1024;

/// Bytes of the RGBA panorama.
pub const SKY_BYTES: usize = 2_097_152;

/// A multiple of `SKY_HEIGHT` larger than any row offset a stamp can reach,
/// used to wrap rows without signed remainders.
const ROW_WRAP_BIAS: i64 = 0x4_0000_0000;

/// A black, fully transparent panorama.
pub fn blank_sky() -> (pixels: Vec<u8>)
    ensures
        pixels@.len() == SKY_BYTES,
        forall|k: int| 0 <= k < SKY_BYTES ==> pixels@[k] == 0,
{
    vec![0u8; SKY_BYTES]
}

/// Columns of a star of size class `class` (drawn with weights 6 : 3 : 1):
/// two, three or four.
pub fn star_size(class: usize) -> (size: i32)
    ensures
        size == if class == 0 { 2int } else if class == 1 { 3int } else { 4int },
{
    match class {
        0 => 2,
        1 => 3,
        _ => 4,
    }
}

/// Column `x` clamped into the panorama.
pub open spec fn clamp_col(x: int) -> int {
    if x < 0 {
        0
    } else if x > SKY_WIDTH - 1 {
        SKY_WIDTH - 1
    } else {
        x
    }
}

/// A star of `size` columns and `width_v` rows centred on `center` paints
/// pixel `(px, py)`: columns are clamped at the panorama's edges, rows wrap
/// around.
pub open spec fn star_covers(center: [i32; 2], size: int, width_v: int, px: int, py: int) -> bool {
    let x0 = center[0] - size / 2;
    let y0 = center[1] - width_v / 2;
    &&& size > 0
    &&& clamp_col(x0) <= px <= clamp_col(x0 + size - 1)
    &&& (py - y0) % (SKY_HEIGHT as int) < width_v
}

/// Channel `ch` of an opaque pixel of colour `rgb`.
pub open spec fn star_byte(rgb: [u8; 3], ch: int) -> u8 {
    if ch == 0 {
        rgb[0]
    } else if ch == 1 {
        rgb[1]
    } else if ch == 2 {
        rgb[2]
    } else {
        255
    }
}

/// Byte `k` of the panorama after a star was stamped over `before`.
pub open spec fn stamped_byte(before: Seq<u8>, center: [i32; 2], size: int, width_v: int, rgb: [u8; 3], k: int) -> u8 {
    if star_covers(center, size, width_v, (k / 4) % (SKY_WIDTH as int), (k / 4) / (SKY_WIDTH as int)) {
        star_byte(rgb, k % 4)
    } else {
        before[k]
    }
}

proof fn lemma_row_wrap(py: int, y0: int, dy: int)
    requires
        0 <= py < SKY_HEIGHT,
    ensures
        (py == (y0 + dy) % (SKY_HEIGHT as int)) == ((py - y0) % (SKY_HEIGHT as int) == dy % (SKY_HEIGHT as int)),
{
    let h = SKY_HEIGHT as int;
    lemma_small_mod(py as nat, h as nat);
    lemma_mod_equivalence(py, y0 + dy, h);
    lemma_mod_equivalence(py - y0, dy, h);
    assert(py - (y0 + dy) == (py - y0) - dy);
}

/// Columns `clamp_col(x0) ..= clamp_col(x0 + d - 1)`: those painted by the
/// first `d` column offsets of a star starting at column `x0`.
spec fn cols_done(x0: int, d: int, px: int) -> bool {
    d > 0 && clamp_col(x0) <= px <= clamp_col(x0 + d - 1)
}

/// Pixel of byte `k`: column and row.
spec fn byte_col(k: int) -> int {
    (k / 4) % (SKY_WIDTH as int)
}

spec fn byte_row(k: int) -> int {
    (k / 4) / (SKY_WIDTH as int)
}

proof fn lemma_byte_pixel(k: int, px: int, py: int)
    requires
        0 <= px < SKY_WIDTH,
        0 <= py < SKY_HEIGHT,
        0 <= k,
    ensures
        (byte_col(k) == px && byte_row(k) == py) == ((py * SKY_WIDTH + px) * 4 <= k < (py * SKY_WIDTH + px) * 4 + 4),
        (py * SKY_WIDTH + px) * 4 <= k < (py * SKY_WIDTH + px) * 4 + 4 ==> k % 4 == k - (py * SKY_WIDTH + px) * 4,
{
    let p = k / 4;
    assert(k == 4 * p + k % 4 && 0 <= k % 4 < 4);
    assert(p == 1024 * (p / 1024) + p % 1024 && 0 <= p % 1024 < 1024);
    assert(((py * SKY_WIDTH + px) * 4 <= k < (py * SKY_WIDTH + px) * 4 + 4) == (p == py * 1024 + px));
}

/// Paint one star of `size` columns by `width_v` rows, of colour `rgb`,
/// centred on `center` (column, row) into the RGBA panorama `pixels`:
/// columns past an edge are clamped onto it, rows wrap around. Every other
/// byte keeps its value.
pub fn stamp_star(pixels: &mut Vec<u8>, center: [i32; 2], size: i32, width_v: i32, rgb: [u8; 3])
    requires
        old(pixels)@.len() == SKY_BYTES,
    ensures
        final(pixels)@.len() == SKY_BYTES,
        forall|k: int| 0 <= k < SKY_BYTES ==> #[trigger] final(pixels)@[k]
            == stamped_byte(old(pixels)@, center, size as int, width_v as int, rgb, k),
{
    let ghost before = pixels@;
    let ghost h = SKY_HEIGHT as int;
    let half_x: i32 = size / 2;
    let half_y: i32 = width_v / 2;
    let x0: i64 = center[0] as i64 - half_x as i64;
    let y0: i64 = center[1] as i64 - half_y as i64;
    let ghost gx0: int = center[0] - (size as int) / 2;
    let ghost gy0: int = center[1] - (width_v as int) / 2;
    let mut dx: i32 = 0;
    while dx < size
        invariant
            0 <= dx,
            dx <= size || dx == 0,
            h == SKY_HEIGHT,
            size > 0 ==> x0 == gx0,
            -0x8000_0000 - 0x4000_0000 <= x0 <= 0x8000_0000 + 0x4000_0000,
            width_v > 0 ==> y0 == gy0,
            -0x8000_0000 - 0x4000_0000 <= y0 <= 0x8000_0000 + 0x4000_0000,
            pixels@.len() == SKY_BYTES,
            forall|k: int| 0 <= k < SKY_BYTES ==> #[trigger] pixels@[k] == if cols_done(gx0, dx as int, byte_col(k))
                && (byte_row(k) - gy0) % h < width_v {
                star_byte(rgb, k % 4)
            } else {
                before[k]
            },
        decreases size - dx,
    {
        let xs: i64 = x0 + dx as i64;
        let px: i64 = if xs < 0 { 0 } else if xs > (SKY_WIDTH - 1) as i64 { (SKY_WIDTH - 1) as i64 } else { xs };
        let mut dy: i32 = 0;
        while dy < width_v
            invariant
                0 <= dx < size,
                h == SKY_HEIGHT,
                0 <= dy,
                dy <= width_v || dy == 0,
                0 <= px < SKY_WIDTH,
                x0 == gx0,
                width_v > 0 ==> y0 == gy0,
                -0x8000_0000 - 0x4000_0000 <= y0 <= 0x8000_0000 + 0x4000_0000,
                px == clamp_col(gx0 + dx),
                pixels@.len() == SKY_BYTES,
                forall|k: int| 0 <= k < SKY_BYTES ==> #[trigger] pixels@[k] == if (cols_done(gx0, dx as int, byte_col(k))
                    && (byte_row(k) - gy0) % h < width_v) || (byte_col(k) == px && (byte_row(k) - gy0) % h < dy) {
                    star_byte(rgb, k % 4)
                } else {
                    before[k]
                },
            decreases width_v - dy,
        {
            let t: i64 = y0 + dy as i64 + ROW_WRAP_BIAS;
            let py: i64 = (t as u64 % SKY_HEIGHT as u64) as i64;
            proof {
                lemma_mod_multiples_vanish(0x200_0000, y0 + dy, h);
                assert(py == (gy0 + dy) % h);
                assert(0 <= py < SKY_HEIGHT);
                assert(0 <= py * 1024 <= 511 * 1024) by (nonlinear_arith)
                    requires 0 <= py < 512;
            }
            let idx: usize = ((py * SKY_WIDTH as i64 + px) * 4) as usize;
            let ghost prev = pixels@;
            pixels.set(idx, rgb[0]);
            pixels.set(idx + 1, rgb[1]);
            pixels.set(idx + 2, rgb[2]);
            pixels.set(idx + 3, 255);
            proof {
                assert forall|k: int| 0 <= k < SKY_BYTES implies #[trigger] pixels@[k] == if (cols_done(gx0, dx as int, byte_col(k))
                    && (byte_row(k) - gy0) % h < width_v) || (byte_col(k) == px && (byte_row(k) - gy0) % h < dy + 1) {
                    star_byte(rgb, k % 4)
                } else {
                    before[k]
                } by {
                    lemma_byte_pixel(k, px as int, py as int);
                    lemma_pixel_of_byte(k);
                    lemma_row_wrap(byte_row(k), gy0, dy as int);
                    assert(prev[k] == pixels@[k] || (idx <= k < idx + 4));
                }
            }
            dy = dy + 1;
        }
        dx = dx + 1;
    }
    proof {
        assert(dx == size || size <= 0);
        assert forall|k: int| 0 <= k < SKY_BYTES implies #[trigger] pixels@[k]
            == stamped_byte(before, center, size as int, width_v as int, rgb, k) by {
        }
    }
}

proof fn lemma_pixel_of_byte(k: int)
    requires
        0 <= k < SKY_BYTES,
    ensures
        0 <= byte_col(k) < SKY_WIDTH,
        0 <= byte_row(k) < SKY_HEIGHT,
{
}

} // verus!
