//! The five chunk kinds, the tests that decide between them and the bytes of
//! each.
//!
//! Channel differences are cyclic over the 8-bit domain: the step from 255 to
//! 0 is a step of one. Each difference is stored with a bias, so that a small
//! step in either direction becomes a small unsigned field.

use crate::pixel::{hash_slot, RGBAPixel};
use vstd::prelude::*;
use vstd::wrapping::u8_specs::{wrapping_add, wrapping_sub};

verus! {

/// The cyclic step from `prev` to `cur`, shifted up by `bias`: a value in
/// `0..=255`.
pub open spec fn biased_step(prev: u8, cur: u8, bias: int) -> int {
    (cur - prev + bias) % 256
}

/// The cyclic step of a channel measured against the step of green, shifted
/// up by 8: a value in `0..=255`.
pub open spec fn biased_step_vs_green(
    prev: u8,
    cur: u8,
    prev_green: u8,
    cur_green: u8,
) -> int {
    ((cur - prev) - (cur_green - prev_green) + 8) % 256
}

/// The three colour channels each step by -2..=1 from `prev` to `cur`.
pub open spec fn fits_diff(prev: RGBAPixel, cur: RGBAPixel) -> bool {
    &&& biased_step(prev.r, cur.r, 2) <= 3
    &&& biased_step(prev.g, cur.g, 2) <= 3
    &&& biased_step(prev.b, cur.b, 2) <= 3
}

/// Green steps by -32..=31, and red and blue each step by -8..=7 more than
/// green does.
pub open spec fn fits_luma(prev: RGBAPixel, cur: RGBAPixel) -> bool {
    &&& biased_step(prev.g, cur.g, 32) <= 63
    &&& biased_step_vs_green(prev.r, cur.r, prev.g, cur.g) <= 15
    &&& biased_step_vs_green(prev.b, cur.b, prev.g, cur.g) <= 15
}

/// The byte of an index chunk: the slot itself, whose two top bits are zero.
pub open spec fn index_byte(slot: int) -> u8 {
    slot as u8
}

/// The byte of a small-difference chunk: tag `01`, then two bits for each of
/// red, green and blue.
pub open spec fn diff_byte(prev: RGBAPixel, cur: RGBAPixel) -> u8 {
    (64 + 16 * biased_step(prev.r, cur.r, 2) + 4 * biased_step(prev.g, cur.g, 2) + biased_step(
        prev.b,
        cur.b,
        2,
    )) as u8
}

/// The two bytes of a luma chunk: tag `10` with six bits for green, then four
/// bits each for red and blue against green.
pub open spec fn luma_bytes(prev: RGBAPixel, cur: RGBAPixel) -> Seq<u8> {
    seq![
        (128 + biased_step(prev.g, cur.g, 32)) as u8,
        (16 * biased_step_vs_green(prev.r, cur.r, prev.g, cur.g) + biased_step_vs_green(
            prev.b,
            cur.b,
            prev.g,
            cur.g,
        )) as u8,
    ]
}

/// The four bytes of an RGB literal chunk.
pub open spec fn rgb_bytes(pixel: RGBAPixel) -> Seq<u8> {
    seq![254u8, pixel.r, pixel.g, pixel.b]
}

/// The five bytes of an RGBA literal chunk.
pub open spec fn rgba_bytes(pixel: RGBAPixel) -> Seq<u8> {
    seq![255u8, pixel.r, pixel.g, pixel.b, pixel.a]
}

/// Wrapping subtraction followed by wrapping addition of the bias computes
/// the biased cyclic step.
pub proof fn lemma_biased_step(prev: u8, cur: u8, bias: u8)
    ensures
        wrapping_add(wrapping_sub(cur, prev), bias) == biased_step(prev, cur, bias as int),
        0 <= biased_step(prev, cur, bias as int) < 256,
{
    let step: int = cur - prev + bias;
    if step < 0 {
        assert(step % 256 == step + 256);
    } else if step < 256 {
        assert(step % 256 == step);
    } else {
        assert(step % 256 == step - 256);
    }
}

/// Wrapping subtraction of the green step from a channel's step, followed by
/// wrapping addition of 8, computes the biased step against green.
pub proof fn lemma_biased_step_vs_green(prev: u8, cur: u8, prev_green: u8, cur_green: u8)
    ensures
        wrapping_add(
            wrapping_sub(wrapping_sub(cur, prev), wrapping_sub(cur_green, prev_green)),
            8,
        ) == biased_step_vs_green(prev, cur, prev_green, cur_green),
        0 <= biased_step_vs_green(prev, cur, prev_green, cur_green) < 256,
{
    let step: int = (cur - prev) - (cur_green - prev_green) + 8;
    if step < -256 {
        assert(step % 256 == step + 512);
    } else if step < 0 {
        assert(step % 256 == step + 256);
    } else if step < 256 {
        assert(step % 256 == step);
    } else if step < 512 {
        assert(step % 256 == step - 256);
    } else {
        assert(step % 256 == step - 512);
    }
}

/// Tells whether `current_pixel` can follow `previous_pixel` as a
/// small-difference chunk: equal alpha, and each colour channel within
/// -2..=1 of the previous one, cyclically.
pub fn smalldiff(previous_pixel: RGBAPixel, current_pixel: RGBAPixel) -> (small: bool)
    ensures
        small == (fits_diff(previous_pixel, current_pixel) && current_pixel.a
            == previous_pixel.a),
{
    proof {
        lemma_biased_step(previous_pixel.r, current_pixel.r, 2);
        lemma_biased_step(previous_pixel.g, current_pixel.g, 2);
        lemma_biased_step(previous_pixel.b, current_pixel.b, 2);
    }
    let rdiff: u8 = current_pixel.r.wrapping_sub(previous_pixel.r).wrapping_add(2);
    let gdiff: u8 = current_pixel.g.wrapping_sub(previous_pixel.g).wrapping_add(2);
    let bdiff: u8 = current_pixel.b.wrapping_sub(previous_pixel.b).wrapping_add(2);
    rdiff <= 3 && gdiff <= 3 && bdiff <= 3 && current_pixel.a == previous_pixel.a
}

/// Tells whether `current_pixel` can follow `previous_pixel` as a luma
/// chunk: equal alpha, green within -32..=31, and red and blue within -8..=7
/// of the green step, all cyclically.
pub fn lumadiff(previous_pixel: RGBAPixel, current_pixel: RGBAPixel) -> (luma: bool)
    ensures
        luma == (fits_luma(previous_pixel, current_pixel) && current_pixel.a
            == previous_pixel.a),
{
    proof {
        lemma_biased_step(previous_pixel.g, current_pixel.g, 32);
        lemma_biased_step_vs_green(
            previous_pixel.r,
            current_pixel.r,
            previous_pixel.g,
            current_pixel.g,
        );
        lemma_biased_step_vs_green(
            previous_pixel.b,
            current_pixel.b,
            previous_pixel.g,
            current_pixel.g,
        );
    }
    let dg: u8 = current_pixel.g.wrapping_sub(previous_pixel.g);
    let dr_dg: u8 = current_pixel.r.wrapping_sub(previous_pixel.r).wrapping_sub(dg);
    let db_dg: u8 = current_pixel.b.wrapping_sub(previous_pixel.b).wrapping_sub(dg);
    dg.wrapping_add(32) <= 63 && dr_dg.wrapping_add(8) <= 15 && db_dg.wrapping_add(8) <= 15
        && current_pixel.a == previous_pixel.a
}

/// The index chunk for a cache slot: one byte holding the slot.
pub fn qoi_op_index(pixel_hash: usize) -> (byte: u8)
    requires
        pixel_hash < 64,
    ensures
        byte == index_byte(pixel_hash as int),
        byte == pixel_hash,
        byte & 0xC0 == 0,
{
    let byte: u8 = pixel_hash as u8;
    assert(byte & 0xC0 == 0) by (bit_vector)
        requires
            byte < 64,
    ;
    byte
}

/// The small-difference chunk that takes `previous_pixel` to
/// `current_pixel`: one byte.
pub fn qoi_op_diff(previous_pixel: RGBAPixel, current_pixel: RGBAPixel) -> (byte: u8)
    requires
        fits_diff(previous_pixel, current_pixel),
    ensures
        byte == diff_byte(previous_pixel, current_pixel),
        byte == 0x40u8 | ((biased_step(previous_pixel.r, current_pixel.r, 2) as u8) << 4) | ((
        biased_step(previous_pixel.g, current_pixel.g, 2) as u8) << 2) | (biased_step(
            previous_pixel.b,
            current_pixel.b,
            2,
        ) as u8),
        64 <= byte < 128,
{
    proof {
        lemma_biased_step(previous_pixel.r, current_pixel.r, 2);
        lemma_biased_step(previous_pixel.g, current_pixel.g, 2);
        lemma_biased_step(previous_pixel.b, current_pixel.b, 2);
    }
    let dr: u8 = current_pixel.r.wrapping_sub(previous_pixel.r).wrapping_add(2);
    let dg: u8 = current_pixel.g.wrapping_sub(previous_pixel.g).wrapping_add(2);
    let db: u8 = current_pixel.b.wrapping_sub(previous_pixel.b).wrapping_add(2);
    assert((dr << 4) == dr * 16 && (dg << 2) == dg * 4 && 0x40u8 | (dr << 4) | (dg << 2) | db
        == 64 + dr * 16 + dg * 4 + db) by (bit_vector)
        requires
            dr <= 3,
            dg <= 3,
            db <= 3,
    ;
    let rdiff: u8 = dr << 4;
    let gdiff: u8 = dg << 2;
    0b01000000 + rdiff + gdiff + db
}

/// The luma chunk that takes `previous_pixel` to `current_pixel`: two bytes.
pub fn qoi_op_luma(previous_pixel: RGBAPixel, current_pixel: RGBAPixel) -> (bytes: Vec<u8>)
    requires
        fits_luma(previous_pixel, current_pixel),
    ensures
        bytes@ == luma_bytes(previous_pixel, current_pixel),
        bytes@.len() == 2,
        bytes@[0] == 0x80u8 | (biased_step(previous_pixel.g, current_pixel.g, 32) as u8),
        bytes@[1] == ((biased_step_vs_green(
            previous_pixel.r,
            current_pixel.r,
            previous_pixel.g,
            current_pixel.g,
        ) as u8) << 4) | (biased_step_vs_green(
            previous_pixel.b,
            current_pixel.b,
            previous_pixel.g,
            current_pixel.g,
        ) as u8),
        128 <= bytes@[0] < 192,
{
    proof {
        lemma_biased_step(previous_pixel.g, current_pixel.g, 32);
        lemma_biased_step_vs_green(
            previous_pixel.r,
            current_pixel.r,
            previous_pixel.g,
            current_pixel.g,
        );
        lemma_biased_step_vs_green(
            previous_pixel.b,
            current_pixel.b,
            previous_pixel.g,
            current_pixel.g,
        );
    }
    let dg: u8 = current_pixel.g.wrapping_sub(previous_pixel.g);
    let dr_dg: u8 = current_pixel.r.wrapping_sub(previous_pixel.r).wrapping_sub(dg);
    let db_dg: u8 = current_pixel.b.wrapping_sub(previous_pixel.b).wrapping_sub(dg);
    let green: u8 = dg.wrapping_add(32);
    let red: u8 = dr_dg.wrapping_add(8);
    let blue: u8 = db_dg.wrapping_add(8);
    assert(0x80u8 | green == 128 + green && (red << 4) == red * 16 && (red << 4) | blue == red
        * 16 + blue) by (bit_vector)
        requires
            green <= 63,
            red <= 15,
            blue <= 15,
    ;
    let first: u8 = 0b10000000 + green;
    let second: u8 = (red << 4) + blue;
    let bytes = vec![first, second];
    assert(bytes@ =~= luma_bytes(previous_pixel, current_pixel));
    bytes
}

/// The RGB literal chunk for `pixel`: tag `0xFE`, then red, green, blue.
pub fn qoi_op_rgb(pixel: RGBAPixel) -> (bytes: Vec<u8>)
    ensures
        bytes@ == rgb_bytes(pixel),
        bytes@.len() == 4,
{
    let bytes = vec![254, pixel.r, pixel.g, pixel.b];
    assert(bytes@ =~= rgb_bytes(pixel));
    bytes
}

/// The RGBA literal chunk for `pixel`: tag `0xFF`, then red, green, blue,
/// alpha.
pub fn qoi_op_rgba(pixel: RGBAPixel) -> (bytes: Vec<u8>)
    ensures
        bytes@ == rgba_bytes(pixel),
        bytes@.len() == 5,
{
    let bytes = vec![255, pixel.r, pixel.g, pixel.b, pixel.a];
    assert(bytes@ =~= rgba_bytes(pixel));
    bytes
}

/// The kind of chunk that stands for one pixel.
#[derive(Debug, Clone, Copy, PartialEq, Eq, Structural)]
pub enum ChunkKind {
    /// One byte: the cache slot that already holds the pixel.
    Index,
    /// One byte: a small step in each colour channel.
    Diff,
    /// Two bytes: a step in green, and red and blue against green.
    Luma,
    /// Four bytes: the colour channels as they are.
    Rgb,
    /// Five bytes: all four channels as they are.
    Rgba,
}

/// The kind of chunk chosen for `cur`, given the pixel `cached` in its cache
/// slot and the pixel `prev` before it. The tests are tried in this order and
/// the first that holds decides.
pub open spec fn chunk_kind(cached: RGBAPixel, prev: RGBAPixel, cur: RGBAPixel) -> ChunkKind {
    if cached == cur {
        ChunkKind::Index
    } else if cur.a != prev.a {
        ChunkKind::Rgba
    } else if fits_diff(prev, cur) {
        ChunkKind::Diff
    } else if fits_luma(prev, cur) {
        ChunkKind::Luma
    } else {
        ChunkKind::Rgb
    }
}

/// Number of bytes in a chunk of the given kind.
pub open spec fn chunk_len(kind: ChunkKind) -> nat {
    match kind {
        ChunkKind::Index => 1,
        ChunkKind::Diff => 1,
        ChunkKind::Luma => 2,
        ChunkKind::Rgb => 4,
        ChunkKind::Rgba => 5,
    }
}

/// The bytes of the chunk of the given kind that encodes `cur` after `prev`.
pub open spec fn chunk_bytes(kind: ChunkKind, prev: RGBAPixel, cur: RGBAPixel) -> Seq<u8> {
    match kind {
        ChunkKind::Index => seq![index_byte(hash_slot(cur))],
        ChunkKind::Diff => seq![diff_byte(prev, cur)],
        ChunkKind::Luma => luma_bytes(prev, cur),
        ChunkKind::Rgb => rgb_bytes(cur),
        ChunkKind::Rgba => rgba_bytes(cur),
    }
}

/// Chooses the kind of chunk for `current_pixel`, given the pixel `cached`
/// found in its cache slot and the pixel before it.
pub fn select_chunk(
    cached: RGBAPixel,
    previous_pixel: RGBAPixel,
    current_pixel: RGBAPixel,
) -> (kind: ChunkKind)
    ensures
        kind == chunk_kind(cached, previous_pixel, current_pixel),
{
    if cached == current_pixel {
        ChunkKind::Index
    } else if current_pixel.a != previous_pixel.a {
        ChunkKind::Rgba
    } else if smalldiff(previous_pixel, current_pixel) {
        ChunkKind::Diff
    } else if lumadiff(previous_pixel, current_pixel) {
        ChunkKind::Luma
    } else {
        ChunkKind::Rgb
    }
}

/// Among pixels of equal alpha, a pair that fits a small-difference chunk is
/// never encoded as a luma or literal chunk, and a pair that fits a luma
/// chunk is never encoded as a literal chunk. An RGBA literal is chosen only
/// where alpha changes.
pub proof fn lemma_priority(cached: RGBAPixel, prev: RGBAPixel, cur: RGBAPixel)
    requires
        prev.a == cur.a,
    ensures
        chunk_kind(cached, prev, cur) != ChunkKind::Rgba,
        fits_diff(prev, cur) ==> chunk_kind(cached, prev, cur) == ChunkKind::Index || chunk_kind(
            cached,
            prev,
            cur,
        ) == ChunkKind::Diff,
        fits_diff(prev, cur) && cached != cur ==> chunk_kind(cached, prev, cur)
            == ChunkKind::Diff,
        fits_luma(prev, cur) ==> chunk_kind(cached, prev, cur) != ChunkKind::Rgb,
        fits_luma(prev, cur) && !fits_diff(prev, cur) && cached != cur ==> chunk_kind(
            cached,
            prev,
            cur,
        ) == ChunkKind::Luma,
{
}

/// Every chunk has the length of its kind: 1, 1, 2, 4 or 5 bytes.
pub proof fn lemma_chunk_len(kind: ChunkKind, prev: RGBAPixel, cur: RGBAPixel)
    ensures
        chunk_bytes(kind, prev, cur).len() == chunk_len(kind),
        1 <= chunk_len(kind) <= 5,
{
}

} // verus!
