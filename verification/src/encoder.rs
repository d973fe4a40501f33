//! The pixel stream encoder: one chunk per pixel, chosen from the pixel
//! cache and the previous pixel.

use crate::chunk::{
    chunk_len, qoi_op_diff, qoi_op_index, qoi_op_luma, qoi_op_rgb, qoi_op_rgba, select_chunk,
    ChunkKind,
};
use crate::model::{
    empty_slot, encode_from, encode_pixels, lemma_encode_push, lemma_stream_len, total_chunk_len,
    EncoderModel,
};
use crate::pixel::{calculate_hash, hash_slot, RGBAPixel};
use vstd::prelude::*;

verus! {

/// The pixel at position `index` of a buffer with `channels` bytes per
/// pixel. A buffer without an alpha channel yields opaque pixels.
pub open spec fn pixel_at(bytes: Seq<u8>, channels: nat, index: int) -> RGBAPixel {
    RGBAPixel {
        r: bytes[index * channels],
        g: bytes[index * channels + 1],
        b: bytes[index * channels + 2],
        a: if channels == 4 {
            bytes[index * channels + 3]
        } else {
            255
        },
    }
}

/// The pixels of a buffer with `channels` bytes per pixel, in buffer order.
pub open spec fn pixels_of(bytes: Seq<u8>, channels: nat) -> Seq<RGBAPixel> {
    Seq::new(bytes.len() / channels, |index: int| pixel_at(bytes, channels, index))
}

/// The state of an encoder between two pixels: the pixel cache and the
/// previous pixel. It lives for one image.
pub struct EncoderState {
    cache: [RGBAPixel; 64],
    previous: RGBAPixel,
}

impl View for EncoderState {
    type V = EncoderModel;

    closed spec fn view(&self) -> EncoderModel {
        EncoderModel { cache: self.cache@, previous: self.previous }
    }
}

impl EncoderState {
    #[verifier::type_invariant]
    spec fn cache_slots_match(self) -> bool {
        forall|slot: int|
            0 <= slot < 64 ==> #[trigger] self.cache@[slot] == empty_slot() || hash_slot(
                self.cache@[slot],
            ) == slot
    }

    /// A fresh encoder: every cache slot holds the transparent black filler,
    /// and the previous pixel is opaque black.
    pub fn new() -> (state: EncoderState)
        ensures
            state@ == EncoderModel::initial(),
            state@.wf(),
    {
        let state = EncoderState {
            cache: [RGBAPixel { r: 0, g: 0, b: 0, a: 0 };64],
            previous: RGBAPixel { r: 0, g: 0, b: 0, a: 255 },
        };
        assert(state@.cache =~= EncoderModel::initial().cache);
        state
    }

    /// The pixel encoded last, or opaque black before the first.
    pub fn previous(&self) -> (pixel: RGBAPixel)
        ensures
            pixel == self@.previous,
    {
        self.previous
    }

    /// The pixel held in a slot of the cache.
    pub fn cached(&self, slot: usize) -> (pixel: RGBAPixel)
        requires
            slot < 64,
        ensures
            pixel == self@.cache[slot as int],
    {
        self.cache[slot]
    }

    /// Encodes one pixel: appends its chunk to `out`, records the pixel as
    /// the previous one and, unless it was found in the cache, stores it in
    /// its slot. Returns the kind of chunk written.
    pub fn encode_pixel(&mut self, pixel: RGBAPixel, out: &mut Vec<u8>) -> (kind: ChunkKind)
        ensures
            kind == old(self)@.kind_for(pixel),
            final(out)@ == old(out)@ + old(self)@.chunk_for(pixel),
            final(out)@.len() == old(out)@.len() + chunk_len(kind),
            final(self)@ == old(self)@.step(pixel),
            final(self)@.wf(),
    {
        proof {
            use_type_invariant(&*self);
        }
        let slot = calculate_hash(pixel);
        let kind = select_chunk(self.cache[slot], self.previous, pixel);
        match kind {
            ChunkKind::Index => {
                out.push(qoi_op_index(slot));
            },
            ChunkKind::Diff => {
                out.push(qoi_op_diff(self.previous, pixel));
            },
            ChunkKind::Luma => {
                let mut chunk = qoi_op_luma(self.previous, pixel);
                out.append(&mut chunk);
            },
            ChunkKind::Rgb => {
                let mut chunk = qoi_op_rgb(pixel);
                out.append(&mut chunk);
            },
            ChunkKind::Rgba => {
                let mut chunk = qoi_op_rgba(pixel);
                out.append(&mut chunk);
            },
        }
        if kind != ChunkKind::Index {
            self.cache[slot] = pixel;
        }
        self.previous = pixel;
        assert(out@ =~= old(out)@ + old(self)@.chunk_for(pixel));
        assert(self@.cache =~= old(self)@.step(pixel).cache);
        kind
    }
}

/// Encodes a buffer of `channels` bytes per pixel into its chunk stream,
/// pixel by pixel in buffer order, starting from a fresh encoder.
pub fn convert_bytes(img_bytes: Vec<u8>, channels: u8) -> (processed_bytes: Vec<u8>)
    requires
        channels == 3 || channels == 4,
        img_bytes@.len() % (channels as nat) == 0,
    ensures
        processed_bytes@ == encode_pixels(pixels_of(img_bytes@, channels as nat)),
        processed_bytes@.len() == total_chunk_len(
            EncoderModel::initial(),
            pixels_of(img_bytes@, channels as nat),
        ),
        img_bytes@.len() / (channels as nat) <= processed_bytes@.len() <= 5 * (img_bytes@.len() / (
        channels as nat)),
{
    let ghost pixels = pixels_of(img_bytes@, channels as nat);
    let mut state = EncoderState::new();
    let length = img_bytes.len();
    let stride: usize = channels as usize;
    let mut processed_bytes: Vec<u8> = vec![];
    let mut index: usize = 0;
    let mut count: Ghost<int> = Ghost(0);
    assert(pixels.take(0) =~= Seq::<RGBAPixel>::empty());
    while index < length
        invariant
            stride == channels,
            channels == 3 || channels == 4,
            length == img_bytes@.len(),
            length % stride == 0,
            pixels == pixels_of(img_bytes@, channels as nat),
            index == count@ * stride,
            0 <= count@ <= pixels.len(),
            index <= length,
            processed_bytes@ == encode_from(EncoderModel::initial(), pixels.take(count@)),
            state@ == EncoderModel::initial().run(pixels.take(count@)),
        decreases length - index,
    {
        assert(index + stride <= length && count@ < pixels.len()) by {
            if stride == 3 {
                assert(length % 3 == 0);
            } else {
                assert(length % 4 == 0);
            }
        }
        let current_pixel = RGBAPixel {
            r: img_bytes[index],
            g: img_bytes[index + 1],
            b: img_bytes[index + 2],
            a: if channels == 4 {
                img_bytes[index + 3]
            } else {
                255
            },
        };
        assert(current_pixel == pixels[count@]);
        proof {
            lemma_encode_push(EncoderModel::initial(), pixels.take(count@), current_pixel);
            assert(pixels.take(count@ + 1) =~= pixels.take(count@).push(current_pixel));
        }
        state.encode_pixel(current_pixel, &mut processed_bytes);
        index += stride;
        proof {
            count@ = count@ + 1;
        }
    }
    proof {
        assert(pixels.take(count@) =~= pixels);
        lemma_stream_len(EncoderModel::initial(), pixels);
    }
    processed_bytes
}

} // verus!
