use qoi_encoder::chunk::{
    lumadiff, qoi_op_diff, qoi_op_index, qoi_op_luma, qoi_op_rgb, qoi_op_rgba, select_chunk,
    smalldiff, ChunkKind,
};
use qoi_encoder::pixel::{calculate_hash, RGBAPixel};

fn px(r: u8, g: u8, b: u8, a: u8) -> RGBAPixel {
    RGBAPixel { r, g, b, a }
}

/// A pixel that differs from every pixel used below, to stand for a cache miss.
fn miss() -> RGBAPixel {
    px(201, 202, 203, 204)
}

#[test]
fn hash_of_opaque_black_is_53() {
    assert_eq!(calculate_hash(px(0, 0, 0, 255)), 53);
}

#[test]
fn hash_of_transparent_black_is_0() {
    assert_eq!(calculate_hash(px(0, 0, 0, 0)), 0);
}

#[test]
fn hash_weights_each_channel() {
    assert_eq!(calculate_hash(px(1, 0, 0, 0)), 3);
    assert_eq!(calculate_hash(px(0, 1, 0, 0)), 5);
    assert_eq!(calculate_hash(px(0, 0, 1, 0)), 7);
    assert_eq!(calculate_hash(px(0, 0, 0, 1)), 11);
    assert_eq!(calculate_hash(px(10, 20, 30, 40)), (30 + 100 + 210 + 440) % 64);
    assert_eq!(calculate_hash(px(255, 255, 255, 255)), (255 * 26) % 64);
}

#[test]
fn hash_stays_below_64() {
    let samples: [u8; 9] = [0, 1, 2, 63, 64, 127, 128, 254, 255];
    for r in samples {
        for g in samples {
            for b in samples {
                for a in samples {
                    let expected =
                        (r as usize * 3 + g as usize * 5 + b as usize * 7 + a as usize * 11) % 64;
                    let slot = calculate_hash(px(r, g, b, a));
                    assert!(slot < 64);
                    assert_eq!(slot, expected);
                }
            }
        }
    }
}

#[test]
fn index_chunk_is_the_slot() {
    assert_eq!(qoi_op_index(0), 0);
    assert_eq!(qoi_op_index(53), 53);
    assert_eq!(qoi_op_index(63), 0b00111111);
    for slot in 0..64usize {
        assert_eq!(qoi_op_index(slot) & 0b11000000, 0);
    }
}

#[test]
fn rgb_chunk_is_tag_then_colour() {
    assert_eq!(qoi_op_rgb(px(10, 20, 30, 40)), vec![0xFE, 10, 20, 30]);
}

#[test]
fn rgba_chunk_is_tag_then_all_channels() {
    assert_eq!(qoi_op_rgba(px(10, 20, 30, 40)), vec![0xFF, 10, 20, 30, 40]);
}

#[test]
fn diff_chunk_of_no_change() {
    let p = px(9, 9, 9, 255);
    assert!(smalldiff(p, p));
    assert_eq!(qoi_op_diff(p, p), 0b01101010);
}

#[test]
fn diff_chunk_packs_three_fields() {
    // red -2, green 0, blue +1
    let prev = px(100, 100, 100, 7);
    let cur = px(98, 100, 101, 7);
    assert!(smalldiff(prev, cur));
    assert_eq!(qoi_op_diff(prev, cur), 0b01_00_10_11);
}

#[test]
fn wraparound_step_is_a_small_difference() {
    let prev = px(255, 0, 0, 255);
    let cur = px(0, 0, 0, 255);
    assert!(smalldiff(prev, cur));
    assert_eq!(qoi_op_diff(prev, cur), 0x7A);
    assert_eq!(select_chunk(miss(), prev, cur), ChunkKind::Diff);
}

#[test]
fn smalldiff_needs_equal_alpha() {
    assert!(!smalldiff(px(0, 0, 0, 255), px(0, 0, 0, 254)));
    assert!(!lumadiff(px(0, 0, 0, 255), px(0, 0, 0, 254)));
}

#[test]
fn luma_example() {
    let prev = px(0, 0, 0, 255);
    let cur = px(0, 7, 0, 255);
    assert!(!smalldiff(prev, cur));
    assert!(lumadiff(prev, cur));
    assert_eq!(qoi_op_luma(prev, cur), vec![0b10100111, 0b00010001]);
    assert_eq!(qoi_op_luma(prev, cur), vec![0xA7, 0x11]);
    assert_eq!(select_chunk(miss(), prev, cur), ChunkKind::Luma);
}

#[test]
fn luma_chunk_packs_three_fields() {
    // green +10, red +10 + 3, blue +10 - 8
    let prev = px(50, 50, 50, 1);
    let cur = px(63, 60, 52, 1);
    assert!(lumadiff(prev, cur));
    assert_eq!(qoi_op_luma(prev, cur), vec![0b10_000000 | 42, (11 << 4) | 0]);
}

#[test]
fn luma_chunk_wraps_around() {
    // green 250 -> 4 is a step of +10; red 0 -> 255 is -1, which is -11 against green
    let prev = px(0, 250, 10, 255);
    let cur = px(255, 4, 20, 255);
    assert!(!lumadiff(prev, cur));
    // red 250 -> 2 is +8, which is -2 against green; blue 255 -> 16 is +17, which is +7
    let prev = px(250, 250, 255, 255);
    let cur = px(2, 4, 16, 255);
    assert!(lumadiff(prev, cur));
    assert_eq!(qoi_op_luma(prev, cur), vec![128 + 42, (6 << 4) | 15]);
}

#[test]
fn diff_boundary_upper() {
    let prev = px(10, 10, 10, 255);
    // a step of +1 is the largest that fits
    assert!(smalldiff(prev, px(11, 10, 10, 255)));
    assert_eq!(select_chunk(miss(), prev, px(11, 10, 10, 255)), ChunkKind::Diff);
    // a step of +2 does not fit, and falls to luma
    assert!(!smalldiff(prev, px(12, 10, 10, 255)));
    assert_eq!(select_chunk(miss(), prev, px(12, 10, 10, 255)), ChunkKind::Luma);
    assert!(!smalldiff(prev, px(10, 12, 10, 255)));
    assert!(!smalldiff(prev, px(10, 10, 12, 255)));
}

#[test]
fn diff_boundary_lower() {
    let prev = px(10, 10, 10, 255);
    // a step of -2 is the smallest that fits
    assert!(smalldiff(prev, px(8, 10, 10, 255)));
    assert_eq!(qoi_op_diff(prev, px(8, 8, 8, 255)), 0b01_00_00_00);
    assert_eq!(select_chunk(miss(), prev, px(8, 10, 10, 255)), ChunkKind::Diff);
    // a step of -3 does not fit
    assert!(!smalldiff(prev, px(7, 10, 10, 255)));
    assert_eq!(select_chunk(miss(), prev, px(7, 10, 10, 255)), ChunkKind::Luma);
    assert!(!smalldiff(prev, px(10, 7, 10, 255)));
    assert!(!smalldiff(prev, px(10, 10, 7, 255)));
}

#[test]
fn luma_boundary_green() {
    let prev = px(100, 100, 100, 255);
    // green +31 with red and blue following fits: the green field is 63
    let cur = px(131, 131, 131, 255);
    assert!(lumadiff(prev, cur));
    assert_eq!(qoi_op_luma(prev, cur), vec![0b10_111111, 0x88]);
    assert_eq!(select_chunk(miss(), prev, cur), ChunkKind::Luma);
    // green +32 does not: the field would be 64
    let cur = px(132, 132, 132, 255);
    assert!(!lumadiff(prev, cur));
    assert_eq!(select_chunk(miss(), prev, cur), ChunkKind::Rgb);
    // green -32 fits: the field is 0
    let cur = px(68, 68, 68, 255);
    assert!(lumadiff(prev, cur));
    assert_eq!(qoi_op_luma(prev, cur), vec![0b10_000000, 0x88]);
    // green -33 does not
    let cur = px(67, 67, 67, 255);
    assert!(!lumadiff(prev, cur));
    assert_eq!(select_chunk(miss(), prev, cur), ChunkKind::Rgb);
}

#[test]
fn luma_boundary_red_and_blue() {
    let prev = px(100, 100, 100, 255);
    // red 7 above green fits: the red field is 15
    let cur = px(112, 105, 105, 255);
    assert!(lumadiff(prev, cur));
    assert_eq!(qoi_op_luma(prev, cur), vec![128 + 37, (15 << 4) | 8]);
    // red 8 above green does not
    assert!(!lumadiff(prev, px(113, 105, 105, 255)));
    assert_eq!(select_chunk(miss(), prev, px(113, 105, 105, 255)), ChunkKind::Rgb);
    // blue 8 below green fits: the blue field is 0
    let cur = px(105, 105, 97, 255);
    assert!(lumadiff(prev, cur));
    assert_eq!(qoi_op_luma(prev, cur), vec![128 + 37, (8 << 4) | 0]);
    // blue 9 below green does not
    assert!(!lumadiff(prev, px(105, 105, 96, 255)));
    assert_eq!(select_chunk(miss(), prev, px(105, 105, 96, 255)), ChunkKind::Rgb);
}

#[test]
fn index_wins_over_every_other_kind() {
    let prev = px(10, 10, 10, 255);
    // fits a small difference, but the cache holds it
    assert_eq!(select_chunk(px(11, 10, 10, 255), prev, px(11, 10, 10, 255)), ChunkKind::Index);
    // alpha changed, but the cache holds it
    assert_eq!(select_chunk(px(11, 10, 10, 3), prev, px(11, 10, 10, 3)), ChunkKind::Index);
    // nothing fits, but the cache holds it
    assert_eq!(select_chunk(px(200, 0, 90, 255), prev, px(200, 0, 90, 255)), ChunkKind::Index);
}

#[test]
fn changed_alpha_is_an_rgba_literal() {
    let prev = px(10, 10, 10, 255);
    // the colour alone would fit a small difference
    assert_eq!(select_chunk(miss(), prev, px(10, 10, 10, 254)), ChunkKind::Rgba);
    assert_eq!(select_chunk(miss(), prev, px(90, 1, 77, 0)), ChunkKind::Rgba);
}

#[test]
fn diff_wins_over_luma() {
    // every pair that fits a small difference also fits luma; diff is chosen
    let prev = px(10, 10, 10, 255);
    let cur = px(11, 11, 11, 255);
    assert!(smalldiff(prev, cur));
    assert!(lumadiff(prev, cur));
    assert_eq!(select_chunk(miss(), prev, cur), ChunkKind::Diff);
}

#[test]
fn large_change_is_an_rgb_literal() {
    let prev = px(0, 0, 0, 255);
    let cur = px(10, 0, 0, 255);
    assert!(!smalldiff(prev, cur));
    assert!(!lumadiff(prev, cur));
    assert_eq!(select_chunk(miss(), prev, cur), ChunkKind::Rgb);
}
