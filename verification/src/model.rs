//! The encoder's state as a mathematical value, and the chunk stream as a
//! fold over the pixels.

use crate::chunk::{chunk_bytes, chunk_kind, chunk_len, index_byte, ChunkKind};
use crate::pixel::{hash_slot, RGBAPixel};
use vstd::prelude::*;

verus! {

/// The pixel that fills every cache slot before encoding starts.
pub open spec fn empty_slot() -> RGBAPixel {
    RGBAPixel { r: 0, g: 0, b: 0, a: 0 }
}

/// The pixel that counts as the one before the first.
pub open spec fn start_pixel() -> RGBAPixel {
    RGBAPixel { r: 0, g: 0, b: 0, a: 255 }
}

/// What the encoder remembers between two pixels: the 64 slots of the pixel
/// cache and the pixel seen last.
pub struct EncoderModel {
    pub cache: Seq<RGBAPixel>,
    pub previous: RGBAPixel,
}

impl EncoderModel {
    /// The state before the first pixel.
    pub open spec fn initial() -> EncoderModel {
        EncoderModel { cache: Seq::new(64, |slot: int| empty_slot()), previous: start_pixel() }
    }

    /// The cache has 64 slots, and each slot holds either the filler it
    /// started with or a pixel that hashes to that slot.
    pub open spec fn wf(self) -> bool {
        &&& self.cache.len() == 64
        &&& forall|slot: int|
            0 <= slot < 64 ==> #[trigger] self.cache[slot] == empty_slot() || hash_slot(
                self.cache[slot],
            ) == slot
    }

    /// The kind of chunk that `pixel` gets in this state.
    pub open spec fn kind_for(self, pixel: RGBAPixel) -> ChunkKind {
        chunk_kind(self.cache[hash_slot(pixel)], self.previous, pixel)
    }

    /// The bytes of the chunk that `pixel` gets in this state.
    pub open spec fn chunk_for(self, pixel: RGBAPixel) -> Seq<u8> {
        chunk_bytes(self.kind_for(pixel), self.previous, pixel)
    }

    /// The state after `pixel`: the pixel becomes the previous one, and,
    /// unless an index chunk found it in the cache, it takes over its slot.
    pub open spec fn step(self, pixel: RGBAPixel) -> EncoderModel {
        EncoderModel {
            cache: if self.kind_for(pixel) == ChunkKind::Index {
                self.cache
            } else {
                self.cache.update(hash_slot(pixel), pixel)
            },
            previous: pixel,
        }
    }

    /// The state after all of `pixels`, in order.
    pub open spec fn run(self, pixels: Seq<RGBAPixel>) -> EncoderModel
        decreases pixels.len(),
    {
        if pixels.len() == 0 {
            self
        } else {
            self.step(pixels[0]).run(pixels.drop_first())
        }
    }
}

/// The chunk stream of `pixels` for an encoder that starts in `state`: the
/// chunk of the first pixel, then the stream of the rest from the state
/// after it.
pub open spec fn encode_from(state: EncoderModel, pixels: Seq<RGBAPixel>) -> Seq<u8>
    decreases pixels.len(),
{
    if pixels.len() == 0 {
        Seq::empty()
    } else {
        state.chunk_for(pixels[0]) + encode_from(state.step(pixels[0]), pixels.drop_first())
    }
}

/// The chunk stream of `pixels` for a fresh encoder.
pub open spec fn encode_pixels(pixels: Seq<RGBAPixel>) -> Seq<u8> {
    encode_from(EncoderModel::initial(), pixels)
}

/// The sum of the chunk lengths of `pixels` for an encoder that starts in
/// `state`.
pub open spec fn total_chunk_len(state: EncoderModel, pixels: Seq<RGBAPixel>) -> nat
    decreases pixels.len(),
{
    if pixels.len() == 0 {
        0
    } else {
        chunk_len(state.kind_for(pixels[0])) + total_chunk_len(
            state.step(pixels[0]),
            pixels.drop_first(),
        )
    }
}

/// The state before the first pixel is well formed.
pub proof fn lemma_initial_wf()
    ensures
        EncoderModel::initial().wf(),
{
}

/// A step keeps the state well formed, and whatever chunk was chosen, the
/// cache afterwards holds the pixel in its slot and is unchanged elsewhere.
pub proof fn lemma_step(state: EncoderModel, pixel: RGBAPixel)
    requires
        state.wf(),
    ensures
        state.step(pixel).wf(),
        state.step(pixel).previous == pixel,
        state.step(pixel).cache == state.cache.update(hash_slot(pixel), pixel),
        state.step(pixel).cache[hash_slot(pixel)] == pixel,
{
    let slot = hash_slot(pixel);
    assert(0 <= slot < 64);
    if state.kind_for(pixel) == ChunkKind::Index {
        assert(state.cache[slot] == pixel);
        assert(state.cache =~= state.cache.update(slot, pixel));
    }
    let next = state.step(pixel);
    assert forall|other: int| 0 <= other < 64 implies #[trigger] next.cache[other] == empty_slot()
        || hash_slot(next.cache[other]) == other by {
        if other != slot {
            assert(next.cache[other] == state.cache[other]);
        }
    }
}

/// A run of steps keeps the state well formed.
pub proof fn lemma_run_wf(state: EncoderModel, pixels: Seq<RGBAPixel>)
    requires
        state.wf(),
    ensures
        state.run(pixels).wf(),
    decreases pixels.len(),
{
    if pixels.len() > 0 {
        lemma_step(state, pixels[0]);
        lemma_run_wf(state.step(pixels[0]), pixels.drop_first());
    }
}

/// A pixel that is encoded twice in a row is, the second time, exactly the
/// one-byte index chunk of its slot.
pub proof fn lemma_repeat_is_index(state: EncoderModel, pixel: RGBAPixel)
    requires
        state.wf(),
    ensures
        state.step(pixel).kind_for(pixel) == ChunkKind::Index,
        state.step(pixel).chunk_for(pixel) == seq![index_byte(hash_slot(pixel))],
        state.step(pixel).step(pixel) == state.step(pixel),
        encode_from(state, seq![pixel, pixel]) == state.chunk_for(pixel) + seq![
            index_byte(hash_slot(pixel)),
        ],
{
    lemma_step(state, pixel);
    let pair = seq![pixel, pixel];
    let next = state.step(pixel);
    assert(pair.drop_first() =~= seq![pixel]);
    assert(pair.drop_first().drop_first() =~= Seq::<RGBAPixel>::empty());
    assert(encode_from(next.step(pixel), pair.drop_first().drop_first()) =~= Seq::<u8>::empty());
    assert(encode_from(next, pair.drop_first()) =~= next.chunk_for(pixel));
}

/// The chunk stream is as long as the chunk lengths of its pixels add up to:
/// every pixel contributes one chunk of 1, 1, 2, 4 or 5 bytes.
pub proof fn lemma_stream_len(state: EncoderModel, pixels: Seq<RGBAPixel>)
    ensures
        encode_from(state, pixels).len() == total_chunk_len(state, pixels),
        pixels.len() <= total_chunk_len(state, pixels) <= 5 * pixels.len(),
    decreases pixels.len(),
{
    if pixels.len() > 0 {
        lemma_stream_len(state.step(pixels[0]), pixels.drop_first());
    }
}

/// The stream of a sequence followed by one more pixel is the stream of the
/// sequence followed by the chunk of that pixel in the state reached.
pub proof fn lemma_encode_push(state: EncoderModel, pixels: Seq<RGBAPixel>, pixel: RGBAPixel)
    ensures
        encode_from(state, pixels.push(pixel)) == encode_from(state, pixels) + state.run(
            pixels,
        ).chunk_for(pixel),
        state.run(pixels.push(pixel)) == state.run(pixels).step(pixel),
    decreases pixels.len(),
{
    let longer = pixels.push(pixel);
    if pixels.len() == 0 {
        assert(longer.drop_first() =~= Seq::<RGBAPixel>::empty());
        assert(encode_from(state.step(pixel), longer.drop_first()) =~= Seq::<u8>::empty());
        assert(encode_from(state, longer) =~= state.chunk_for(pixel));
        assert(encode_from(state, pixels) + state.chunk_for(pixel) =~= state.chunk_for(pixel));
        assert(state.step(pixel).run(longer.drop_first()) == state.step(pixel));
        assert(state.run(longer) == state.step(pixel));
    } else {
        assert(longer.drop_first() =~= pixels.drop_first().push(pixel));
        assert(longer[0] == pixels[0]);
        lemma_encode_push(state.step(pixels[0]), pixels.drop_first(), pixel);
        let next = state.step(pixels[0]);
        assert(state.run(longer) == next.run(longer.drop_first()));
        assert(state.run(pixels) == next.run(pixels.drop_first()));
        assert(encode_from(state, longer) =~= state.chunk_for(pixels[0]) + (encode_from(
            next,
            pixels.drop_first(),
        ) + next.run(pixels.drop_first()).chunk_for(pixel)));
        assert(encode_from(state, longer) =~= encode_from(state, pixels) + state.run(
            pixels,
        ).chunk_for(pixel));
    }
}

/// The last of `pixels` that hashes to `slot`, or `otherwise` if none does.
pub open spec fn last_seen(pixels: Seq<RGBAPixel>, slot: int, otherwise: RGBAPixel) -> RGBAPixel
    decreases pixels.len(),
{
    if pixels.len() == 0 {
        otherwise
    } else if hash_slot(pixels.last()) == slot {
        pixels.last()
    } else {
        last_seen(pixels.drop_last(), slot, otherwise)
    }
}

/// After a run of pixels, every cache slot holds the pixel seen last among
/// those that hash to it, or what it held before if there was none; and the
/// previous pixel is the last of the run.
pub proof fn lemma_cache_holds_last_seen(state: EncoderModel, pixels: Seq<RGBAPixel>, slot: int)
    requires
        state.wf(),
        0 <= slot < 64,
    ensures
        state.run(pixels).cache[slot] == last_seen(pixels, slot, state.cache[slot]),
        state.run(pixels).previous == if pixels.len() == 0 {
            state.previous
        } else {
            pixels.last()
        },
    decreases pixels.len(),
{
    if pixels.len() > 0 {
        let front = pixels.drop_last();
        let pixel = pixels.last();
        assert(pixels =~= front.push(pixel));
        lemma_encode_push(state, front, pixel);
        lemma_run_wf(state, front);
        lemma_step(state.run(front), pixel);
        lemma_cache_holds_last_seen(state, front, slot);
    }
}

} // verus!
