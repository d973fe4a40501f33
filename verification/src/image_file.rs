//! The whole encoded image: header, chunk stream and end marker.

use crate::concat::{concat, lemma_joined_three};
use crate::decode::{decode_samples, lemma_round_trip};
use crate::encoder::{convert_bytes, pixels_of};
use crate::header::{construct_header, end_marker, header_bytes, lemma_header_layout, END_BYTES};
use crate::model::{encode_pixels, lemma_stream_len, EncoderModel};
use vstd::prelude::*;
use vstd::slice::slice_to_vec;

verus! {

/// Why a pixel buffer cannot be encoded.
#[derive(Debug, Clone, Copy, PartialEq, Eq, Structural)]
pub enum InputError {
    /// The channel count is neither 3 nor 4.
    UnsupportedChannels,
    /// The width or the height is zero.
    EmptyImage,
    /// The buffer does not hold exactly width x height x channels bytes.
    LengthMismatch,
}

/// The buffer of an image: positive dimensions, three or four channels, and
/// one byte for every channel of every pixel.
pub open spec fn valid_image(width: u32, height: u32, channels: u8, len: nat) -> bool {
    &&& channels == 3 || channels == 4
    &&& width > 0
    &&& height > 0
    &&& len == width * height * channels
}

/// What is wrong with a buffer, if anything. The channel count is looked at
/// first, then the dimensions, then the length.
pub open spec fn input_error(width: u32, height: u32, channels: u8, len: nat) -> Option<
    InputError,
> {
    if channels != 3 && channels != 4 {
        Some(InputError::UnsupportedChannels)
    } else if width == 0 || height == 0 {
        Some(InputError::EmptyImage)
    } else if len != width * height * channels {
        Some(InputError::LengthMismatch)
    } else {
        None
    }
}

/// The encoded image: the header, the chunk stream of the pixels and the end
/// marker.
pub open spec fn image_bytes(width: u32, height: u32, channels: u8, buffer: Seq<u8>) -> Seq<u8> {
    header_bytes(width, height, channels) + encode_pixels(pixels_of(buffer, channels as nat))
        + end_marker()
}

/// A valid buffer holds a whole number of pixels: width x height of them.
pub proof fn lemma_valid_image_pixels(width: u32, height: u32, channels: u8, buffer: Seq<u8>)
    requires
        valid_image(width, height, channels, buffer.len()),
    ensures
        buffer.len() % (channels as nat) == 0,
        buffer.len() / (channels as nat) == width * height,
        pixels_of(buffer, channels as nat).len() == width * height,
{
    let area: int = width * height;
    assert(buffer.len() == area * channels);
    if channels == 3 {
        assert(buffer.len() == area * 3);
    } else {
        assert(buffer.len() == area * 4);
    }
}

/// A buffer is valid exactly when nothing is wrong with it.
pub proof fn lemma_valid_iff_no_error(width: u32, height: u32, channels: u8, len: nat)
    ensures
        valid_image(width, height, channels, len) <==> input_error(width, height, channels, len)
            is None,
{
}

/// The encoded image starts with the 14 bytes of the header and ends with
/// the 8 bytes of the end marker; the chunk stream lies between them.
pub proof fn lemma_image_layout(width: u32, height: u32, channels: u8, buffer: Seq<u8>)
    ensures
        image_bytes(width, height, channels, buffer).len() == 22 + encode_pixels(
            pixels_of(buffer, channels as nat),
        ).len(),
        image_bytes(width, height, channels, buffer).subrange(0, 14) == header_bytes(
            width,
            height,
            channels,
        ),
        image_bytes(width, height, channels, buffer).skip(14) == encode_pixels(
            pixels_of(buffer, channels as nat),
        ) + end_marker(),
        image_bytes(width, height, channels, buffer).subrange(
            image_bytes(width, height, channels, buffer).len() - 8,
            image_bytes(width, height, channels, buffer).len() as int,
        ) == end_marker(),
{
    let file = image_bytes(width, height, channels, buffer);
    let stream = encode_pixels(pixels_of(buffer, channels as nat));
    lemma_header_layout(width, height, channels);
    assert(file.subrange(0, 14) =~= header_bytes(width, height, channels));
    assert(file.skip(14) =~= stream + end_marker());
    assert(file.subrange(file.len() - 8, file.len() as int) =~= end_marker());
}

/// The encoded image holds all of the buffer: what follows the header reads
/// back, pixel by pixel, as the buffer that was encoded.
pub proof fn lemma_image_round_trip(width: u32, height: u32, channels: u8, buffer: Seq<u8>)
    requires
        valid_image(width, height, channels, buffer.len()),
    ensures
        decode_samples(
            image_bytes(width, height, channels, buffer).skip(14),
            (width * height) as nat,
            channels as nat,
        ) == buffer,
{
    lemma_valid_image_pixels(width, height, channels, buffer);
    lemma_image_layout(width, height, channels, buffer);
    lemma_round_trip(buffer, channels as nat, end_marker());
}

/// Checks a buffer length against the dimensions and the channel count.
pub fn check_input(width: u32, height: u32, channels: u8, len: usize) -> (result: Result<
    (),
    InputError,
>)
    ensures
        result is Ok <==> valid_image(width, height, channels, len as nat),
        result matches Err(error) ==> input_error(width, height, channels, len as nat) == Some(
            error,
        ),
{
    if channels != 3 && channels != 4 {
        return Err(InputError::UnsupportedChannels);
    }
    if width == 0 || height == 0 {
        return Err(InputError::EmptyImage);
    }
    assert(width * height <= 0xFFFF_FFFF * 0xFFFF_FFFF) by (nonlinear_arith)
        requires
            width <= 0xFFFF_FFFF,
            height <= 0xFFFF_FFFF,
    ;
    let area: u64 = (width as u64) * (height as u64);
    let expected: u128 = (area as u128) * (channels as u128);
    assert(expected == width * height * channels);
    if len as u128 != expected {
        return Err(InputError::LengthMismatch);
    }
    Ok(())
}

/// Encodes an image: header, then one chunk per pixel in buffer order, then
/// the end marker.
pub fn encode_image(width: u32, height: u32, channels: u8, img_bytes: Vec<u8>) -> (file: Vec<u8>)
    requires
        valid_image(width, height, channels, img_bytes@.len()),
    ensures
        file@ == image_bytes(width, height, channels, img_bytes@),
        22 + width * height <= file@.len() <= 22 + 5 * (width * height),
        file@.subrange(0, 14) == header_bytes(width, height, channels),
        file@.subrange(file@.len() - 8, file@.len() as int) == end_marker(),
{
    proof {
        lemma_valid_image_pixels(width, height, channels, img_bytes@);
        lemma_stream_len(EncoderModel::initial(), pixels_of(img_bytes@, channels as nat));
        lemma_image_layout(width, height, channels, img_bytes@);
    }
    let mut parts: Vec<Vec<u8>> = Vec::new();
    parts.push(construct_header(width, height, channels));
    parts.push(convert_bytes(img_bytes, channels));
    parts.push(slice_to_vec(END_BYTES.as_slice()));
    proof {
        lemma_joined_three(parts@);
        assert(parts@[2]@ =~= end_marker());
    }
    concat(parts)
}

/// Encodes an image after checking the buffer against the dimensions and
/// the channel count. Nothing is encoded when the check fails.
pub fn try_encode_image(width: u32, height: u32, channels: u8, img_bytes: Vec<u8>) -> (result:
    Result<Vec<u8>, InputError>)
    ensures
        result is Ok <==> valid_image(width, height, channels, img_bytes@.len()),
        result matches Ok(file) ==> file@ == image_bytes(width, height, channels, img_bytes@),
        result matches Err(error) ==> input_error(width, height, channels, img_bytes@.len())
            == Some(error),
{
    match check_input(width, height, channels, img_bytes.len()) {
        Ok(()) => Ok(encode_image(width, height, channels, img_bytes)),
        Err(error) => Err(error),
    }
}

} // verus!
