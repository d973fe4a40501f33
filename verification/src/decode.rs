//! Reading a chunk stream back, as a mathematical function, and the proof
//! that encoding loses nothing.
//!
//! The reader understands the five kinds of chunk that the encoder writes.
//! It keeps the same state as the encoder: after every pixel, the pixel is
//! stored in its cache slot and becomes the previous one.

use crate::chunk::{biased_step, biased_step_vs_green, chunk_len, ChunkKind};
use crate::encoder::{pixel_at, pixels_of};
use crate::model::{encode_from, encode_pixels, lemma_initial_wf, lemma_step, EncoderModel};
use crate::pixel::{hash_slot, RGBAPixel};
use vstd::arithmetic::div_mod::lemma_mod_multiples_vanish;
use vstd::prelude::*;

verus! {

/// The channel value reached from `prev` by a cyclic step.
pub open spec fn stepped(prev: u8, step: int) -> u8 {
    ((prev + step) % 256) as u8
}

/// Number of bytes of the chunk that starts with `tag`.
pub open spec fn chunk_width(tag: u8) -> nat {
    if tag == 255 {
        5
    } else if tag == 254 {
        4
    } else if 128 <= tag < 192 {
        2
    } else {
        1
    }
}

/// The pixel that the chunk at the start of `bytes` stands for in `state`.
pub open spec fn decode_chunk(state: EncoderModel, bytes: Seq<u8>) -> RGBAPixel {
    let tag = bytes[0];
    let prev = state.previous;
    if tag == 255 {
        RGBAPixel { r: bytes[1], g: bytes[2], b: bytes[3], a: bytes[4] }
    } else if tag == 254 {
        RGBAPixel { r: bytes[1], g: bytes[2], b: bytes[3], a: prev.a }
    } else if tag < 64 {
        state.cache[tag as int]
    } else if tag < 128 {
        RGBAPixel {
            r: stepped(prev.r, (tag - 64) / 16 - 2),
            g: stepped(prev.g, ((tag - 64) / 4) % 4 - 2),
            b: stepped(prev.b, (tag - 64) % 4 - 2),
            a: prev.a,
        }
    } else {
        let green = tag - 128 - 32;
        RGBAPixel {
            r: stepped(prev.r, green + bytes[1] / 16 - 8),
            g: stepped(prev.g, green),
            b: stepped(prev.b, green + bytes[1] % 16 - 8),
            a: prev.a,
        }
    }
}

/// The reader's state after `pixel`.
pub open spec fn decoder_step(state: EncoderModel, pixel: RGBAPixel) -> EncoderModel {
    EncoderModel { cache: state.cache.update(hash_slot(pixel), pixel), previous: pixel }
}

/// The first `count` pixels of a chunk stream, read from `state`.
pub open spec fn decode_from(state: EncoderModel, bytes: Seq<u8>, count: nat) -> Seq<RGBAPixel>
    decreases count,
{
    if count == 0 {
        Seq::empty()
    } else {
        let pixel = decode_chunk(state, bytes);
        seq![pixel] + decode_from(
            decoder_step(state, pixel),
            bytes.skip(chunk_width(bytes[0]) as int),
            (count - 1) as nat,
        )
    }
}

/// One channel of a pixel: 0 is red, 1 green, 2 blue, 3 alpha.
pub open spec fn channel_of(pixel: RGBAPixel, channel: int) -> u8 {
    if channel == 0 {
        pixel.r
    } else if channel == 1 {
        pixel.g
    } else if channel == 2 {
        pixel.b
    } else {
        pixel.a
    }
}

/// The buffer that holds the first `channels` channels of each pixel, pixel
/// after pixel.
pub open spec fn samples_of(pixels: Seq<RGBAPixel>, channels: nat) -> Seq<u8> {
    Seq::new(
        pixels.len() * channels,
        |at: int| channel_of(pixels[at / (channels as int)], at % (channels as int)),
    )
}

/// The buffer of `count` pixels that a chunk stream written by a fresh
/// encoder decodes to.
pub open spec fn decode_samples(stream: Seq<u8>, count: nat, channels: nat) -> Seq<u8> {
    samples_of(decode_from(EncoderModel::initial(), stream, count), channels)
}

/// Taking the biased step back from `prev` leads to `cur`.
pub proof fn lemma_step_back(prev: u8, cur: u8, bias: int)
    requires
        0 <= bias < 256,
    ensures
        stepped(prev, biased_step(prev, cur, bias) - bias) == cur,
{
    let raw: int = cur - prev + bias;
    let wraps: int = if raw < 0 {
        1
    } else if raw < 256 {
        0
    } else {
        -1
    };
    assert(biased_step(prev, cur, bias) == raw + 256 * wraps);
    assert(prev + biased_step(prev, cur, bias) - bias == 256 * wraps + cur);
    lemma_mod_multiples_vanish(wraps, cur as int, 256);
}

/// Taking the green step and the step against green back from `prev` leads
/// to `cur`.
pub proof fn lemma_step_back_vs_green(prev: u8, cur: u8, prev_green: u8, cur_green: u8)
    ensures
        stepped(
            prev,
            (biased_step(prev_green, cur_green, 32) - 32) + (biased_step_vs_green(
                prev,
                cur,
                prev_green,
                cur_green,
            ) - 8),
        ) == cur,
{
    let green_raw: int = cur_green - prev_green + 32;
    let green_wraps: int = if green_raw < 0 {
        1
    } else if green_raw < 256 {
        0
    } else {
        -1
    };
    assert(biased_step(prev_green, cur_green, 32) == green_raw + 256 * green_wraps);
    let raw: int = (cur - prev) - (cur_green - prev_green) + 8;
    let wraps: int = if raw < -256 {
        2
    } else if raw < 0 {
        1
    } else if raw < 256 {
        0
    } else if raw < 512 {
        -1
    } else {
        -2
    };
    assert(biased_step_vs_green(prev, cur, prev_green, cur_green) == raw + 256 * wraps);
    let total: int = prev + (biased_step(prev_green, cur_green, 32) - 32) + (biased_step_vs_green(
        prev,
        cur,
        prev_green,
        cur_green,
    ) - 8);
    assert(total == 256 * (green_wraps + wraps) + cur);
    lemma_mod_multiples_vanish(green_wraps + wraps, cur as int, 256);
}

/// The chunk that the encoder writes for a pixel is read back as that pixel,
/// whatever bytes follow it, and its first byte tells its length.
pub proof fn lemma_chunk_round_trip(state: EncoderModel, pixel: RGBAPixel, rest: Seq<u8>)
    requires
        state.wf(),
    ensures
        decode_chunk(state, state.chunk_for(pixel) + rest) == pixel,
        chunk_width((state.chunk_for(pixel) + rest)[0]) == state.chunk_for(pixel).len(),
        state.chunk_for(pixel).len() == chunk_len(state.kind_for(pixel)),
        decoder_step(state, pixel) == state.step(pixel),
{
    let prev = state.previous;
    let kind = state.kind_for(pixel);
    let chunk = state.chunk_for(pixel);
    let bytes = chunk + rest;
    lemma_step(state, pixel);
    assert(0 <= hash_slot(pixel) < 64);
    match kind {
        ChunkKind::Index => {
            assert(bytes[0] == chunk[0]);
            assert(bytes[0] == hash_slot(pixel));
        },
        ChunkKind::Diff => {
            assert(bytes[0] == chunk[0]);
            let dr = biased_step(prev.r, pixel.r, 2);
            let dg = biased_step(prev.g, pixel.g, 2);
            let db = biased_step(prev.b, pixel.b, 2);
            assert(0 <= dr <= 3 && 0 <= dg <= 3 && 0 <= db <= 3);
            assert(bytes[0] == 64 + 16 * dr + 4 * dg + db);
            assert((bytes[0] - 64) / 16 == dr);
            assert(((bytes[0] - 64) / 4) % 4 == dg);
            assert((bytes[0] - 64) % 4 == db);
            lemma_step_back(prev.r, pixel.r, 2);
            lemma_step_back(prev.g, pixel.g, 2);
            lemma_step_back(prev.b, pixel.b, 2);
        },
        ChunkKind::Luma => {
            assert(bytes[0] == chunk[0]);
            assert(bytes[1] == chunk[1]);
            let lg = biased_step(prev.g, pixel.g, 32);
            let lr = biased_step_vs_green(prev.r, pixel.r, prev.g, pixel.g);
            let lb = biased_step_vs_green(prev.b, pixel.b, prev.g, pixel.g);
            assert(0 <= lg <= 63 && 0 <= lr <= 15 && 0 <= lb <= 15);
            assert(bytes[0] == 128 + lg);
            assert(bytes[1] == 16 * lr + lb);
            assert(bytes[1] / 16 == lr);
            assert(bytes[1] % 16 == lb);
            lemma_step_back(prev.g, pixel.g, 32);
            lemma_step_back_vs_green(prev.r, pixel.r, prev.g, pixel.g);
            lemma_step_back_vs_green(prev.b, pixel.b, prev.g, pixel.g);
        },
        ChunkKind::Rgb => {
            assert(bytes[0] == chunk[0]);
            assert(bytes[1] == chunk[1]);
            assert(bytes[2] == chunk[2]);
            assert(bytes[3] == chunk[3]);
        },
        ChunkKind::Rgba => {
            assert(bytes[0] == chunk[0]);
            assert(bytes[1] == chunk[1]);
            assert(bytes[2] == chunk[2]);
            assert(bytes[3] == chunk[3]);
            assert(bytes[4] == chunk[4]);
        },
    }
}

/// Reading back the chunk stream of `pixels`, from the state in which it was
/// written, gives `pixels`, whatever bytes follow the stream.
pub proof fn lemma_decode_encode(state: EncoderModel, pixels: Seq<RGBAPixel>, rest: Seq<u8>)
    requires
        state.wf(),
    ensures
        decode_from(state, encode_from(state, pixels) + rest, pixels.len()) == pixels,
    decreases pixels.len(),
{
    let stream = encode_from(state, pixels) + rest;
    if pixels.len() == 0 {
        assert(decode_from(state, stream, 0) =~= pixels);
    } else {
        let first = pixels[0];
        let tail = pixels.drop_first();
        let chunk = state.chunk_for(first);
        let next = state.step(first);
        let after = encode_from(next, tail) + rest;
        assert(stream =~= chunk + after);
        lemma_chunk_round_trip(state, first, after);
        lemma_step(state, first);
        assert(stream.skip(chunk.len() as int) =~= after);
        lemma_decode_encode(next, tail, rest);
        assert(decode_from(state, stream, pixels.len()) =~= seq![first] + decode_from(
            next,
            after,
            tail.len(),
        ));
        assert(seq![first] + tail =~= pixels);
    }
}

/// Splitting a buffer into pixels and laying the pixels out again gives the
/// buffer back.
pub proof fn lemma_samples_of_pixels(bytes: Seq<u8>, channels: nat)
    requires
        channels == 3 || channels == 4,
        bytes.len() % channels == 0,
    ensures
        samples_of(pixels_of(bytes, channels), channels) == bytes,
{
    let pixels = pixels_of(bytes, channels);
    let samples = samples_of(pixels, channels);
    if channels == 3 {
        assert(pixels.len() * 3 == bytes.len());
        assert forall|at: int| 0 <= at < bytes.len() implies samples[at] == bytes[at] by {
            let index = at / 3;
            assert(at == index * 3 + at % 3);
            assert(pixels[index] == pixel_at(bytes, 3, index));
        }
    } else {
        assert(pixels.len() * 4 == bytes.len());
        assert forall|at: int| 0 <= at < bytes.len() implies samples[at] == bytes[at] by {
            let index = at / 4;
            assert(at == index * 4 + at % 4);
            assert(pixels[index] == pixel_at(bytes, 4, index));
        }
    }
    assert(samples =~= bytes);
}

/// Encoding is lossless: the chunk stream of a buffer, read back, gives the
/// buffer byte for byte, whatever bytes follow the stream.
pub proof fn lemma_round_trip(bytes: Seq<u8>, channels: nat, rest: Seq<u8>)
    requires
        channels == 3 || channels == 4,
        bytes.len() % channels == 0,
    ensures
        decode_samples(
            encode_pixels(pixels_of(bytes, channels)) + rest,
            bytes.len() / channels,
            channels,
        ) == bytes,
{
    let pixels = pixels_of(bytes, channels);
    lemma_initial_wf();
    lemma_decode_encode(EncoderModel::initial(), pixels, rest);
    lemma_samples_of_pixels(bytes, channels);
}

} // verus!
