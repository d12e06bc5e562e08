use roxlap_game_demo::sky::{blank_sky, stamp_star, star_size, SKY_BYTES, SKY_HEIGHT, SKY_WIDTH};

fn pixel(p: &[u8], x: i32, y: i32) -> [u8; 4] {
    let i = ((y * SKY_WIDTH + x) * 4) as usize;
    [p[i], p[i + 1], p[i + 2], p[i + 3]]
}

fn painted(p: &[u8]) -> usize {
    p.chunks(4).filter(|c| c[3] == 255).count()
}

#[test]
fn blank_sky_is_black() {
    let p = blank_sky();
    assert_eq!(p.len(), SKY_BYTES);
    assert!(p.iter().all(|&b| b == 0));
    assert_eq!(SKY_BYTES, (SKY_WIDTH * SKY_HEIGHT * 4) as usize);
}

#[test]
fn star_sizes_by_class() {
    assert_eq!(star_size(0), 2);
    assert_eq!(star_size(1), 3);
    assert_eq!(star_size(2), 4);
}

#[test]
fn stamp_paints_the_rectangle_only() {
    let mut p = blank_sky();
    stamp_star(&mut p, [10, 100], 2, 3, [1, 2, 3]);
    // Columns 9..=10, rows 99..=101.
    for x in 9..=10 {
        for y in 99..=101 {
            assert_eq!(pixel(&p, x, y), [1, 2, 3, 255]);
        }
    }
    assert_eq!(painted(&p), 6);
    assert_eq!(pixel(&p, 11, 100), [0, 0, 0, 0]);
    assert_eq!(pixel(&p, 10, 102), [0, 0, 0, 0]);
}

#[test]
fn stamp_wraps_rows() {
    let mut p = blank_sky();
    stamp_star(&mut p, [200, 0], 2, 3, [9, 9, 9]);
    for y in [SKY_HEIGHT - 1, 0, 1] {
        assert_eq!(pixel(&p, 199, y), [9, 9, 9, 255]);
        assert_eq!(pixel(&p, 200, y), [9, 9, 9, 255]);
    }
    assert_eq!(painted(&p), 6);
}

#[test]
fn stamp_clamps_columns() {
    let mut p = blank_sky();
    // Columns -2..=1 clamp onto 0..=1.
    stamp_star(&mut p, [0, 500], 4, 4, [5, 6, 7]);
    for y in 498..=501 {
        assert_eq!(pixel(&p, 0, y), [5, 6, 7, 255]);
        assert_eq!(pixel(&p, 1, y), [5, 6, 7, 255]);
    }
    assert_eq!(painted(&p), 8);
    let mut q = blank_sky();
    stamp_star(&mut q, [SKY_WIDTH - 1, 500], 4, 1, [5, 6, 7]);
    assert_eq!(pixel(&q, SKY_WIDTH - 1, 500), [5, 6, 7, 255]);
    assert_eq!(pixel(&q, SKY_WIDTH - 2, 500), [5, 6, 7, 255]);
    assert_eq!(pixel(&q, SKY_WIDTH - 3, 500), [5, 6, 7, 255]);
    assert_eq!(painted(&q), 3);
}

#[test]
fn stamp_tall_star_covers_every_row_once() {
    let mut p = blank_sky();
    stamp_star(&mut p, [50, 7], 2, SKY_HEIGHT + 5, [1, 1, 1]);
    assert_eq!(painted(&p), 2 * SKY_HEIGHT as usize);
}

#[test]
fn stamp_of_empty_star_changes_nothing() {
    let mut p = blank_sky();
    stamp_star(&mut p, [50, 7], 0, 5, [1, 1, 1]);
    stamp_star(&mut p, [50, 7], 3, 0, [1, 1, 1]);
    assert_eq!(painted(&p), 0);
}
