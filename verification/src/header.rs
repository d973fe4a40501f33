//! The fixed-size header and the end marker.

use crate::concat::{concat, lemma_joined_four};
use vstd::prelude::*;
use vstd::slice::slice_to_vec;

verus! {

/// The magic identifier at the start of every image: ASCII `qoif`.
pub const MAGIC_BYTES: [u8; 4] = [113, 111, 105, 102];

/// The marker after the last chunk: seven zero bytes, then a one.
pub const END_BYTES: [u8; 8] = [0, 0, 0, 0, 0, 0, 0, 1];

/// The colorspace byte of the header. All channels are taken as linear.
pub const COLORSPACE: u8 = 1;

/// The magic identifier as a sequence.
pub open spec fn magic() -> Seq<u8> {
    seq![113u8, 111u8, 105u8, 102u8]
}

/// The end marker as a sequence.
pub open spec fn end_marker() -> Seq<u8> {
    seq![0u8, 0u8, 0u8, 0u8, 0u8, 0u8, 0u8, 1u8]
}

/// The four bytes of `value`, most significant first.
pub open spec fn be_bytes(value: u32) -> Seq<u8> {
    seq![
        (value / 0x100_0000) as u8,
        ((value / 0x1_0000) % 0x100) as u8,
        ((value / 0x100) % 0x100) as u8,
        (value % 0x100) as u8,
    ]
}

/// The 14 bytes of the header: the magic identifier, width and height most
/// significant byte first, the channel count and the colorspace byte.
pub open spec fn header_bytes(width: u32, height: u32, channels: u8) -> Seq<u8> {
    magic() + be_bytes(width) + be_bytes(height) + seq![channels, 1u8]
}

/// The four bytes of `value`, most significant first.
pub fn u32_to_be_bytes(value: u32) -> (bytes: Vec<u8>)
    ensures
        bytes@ == be_bytes(value),
        bytes@.len() == 4,
        bytes@[0] * 0x100_0000 + bytes@[1] * 0x1_0000 + bytes@[2] * 0x100 + bytes@[3] == value,
{
    let b0: u8 = (value >> 24) as u8;
    let b1: u8 = (value >> 16) as u8;
    let b2: u8 = (value >> 8) as u8;
    let b3: u8 = value as u8;
    assert(b0 == value / 0x100_0000 && b1 == (value / 0x1_0000) % 0x100 && b2 == (value / 0x100)
        % 0x100 && b3 == value % 0x100) by (bit_vector)
        requires
            b0 == (value >> 24) as u8,
            b1 == (value >> 16) as u8,
            b2 == (value >> 8) as u8,
            b3 == value as u8,
    ;
    let bytes = vec![b0, b1, b2, b3];
    assert(bytes@ =~= be_bytes(value));
    bytes
}

/// Builds the header of an image with the given dimensions and channel
/// count. The result depends on nothing but the arguments.
pub fn construct_header(width: u32, height: u32, channels: u8) -> (header: Vec<u8>)
    requires
        channels == 3 || channels == 4,
    ensures
        header@ == header_bytes(width, height, channels),
        header@.len() == 14,
        header@.subrange(0, 4) == magic(),
        header@.subrange(4, 8) == be_bytes(width),
        header@.subrange(8, 12) == be_bytes(height),
        header@[12] == channels,
        header@[13] == 1,
{
    let mut parts: Vec<Vec<u8>> = Vec::new();
    parts.push(slice_to_vec(MAGIC_BYTES.as_slice()));
    parts.push(u32_to_be_bytes(width));
    parts.push(u32_to_be_bytes(height));
    parts.push(vec![channels, COLORSPACE]);
    proof {
        lemma_joined_four(parts@);
        assert(parts@[0]@ =~= magic());
        assert(parts@[3]@ =~= seq![channels, 1u8]);
    }
    let header = concat(parts);
    assert(header@.subrange(0, 4) =~= magic());
    assert(header@.subrange(4, 8) =~= be_bytes(width));
    assert(header@.subrange(8, 12) =~= be_bytes(height));
    header
}

/// The four bytes of a value, most significant first, add up to the value,
/// so that different values have different bytes.
pub proof fn lemma_be_bytes_value(value: u32)
    ensures
        be_bytes(value).len() == 4,
        be_bytes(value)[0] * 0x100_0000 + be_bytes(value)[1] * 0x1_0000 + be_bytes(value)[2]
            * 0x100 + be_bytes(value)[3] == value,
{
}

/// The header always has 14 bytes: the magic identifier, the width, the
/// height, the channel count and the colorspace byte, which is 1.
pub proof fn lemma_header_layout(width: u32, height: u32, channels: u8)
    ensures
        header_bytes(width, height, channels).len() == 14,
        header_bytes(width, height, channels).subrange(0, 4) == magic(),
        header_bytes(width, height, channels).subrange(4, 8) == be_bytes(width),
        header_bytes(width, height, channels).subrange(8, 12) == be_bytes(height),
        header_bytes(width, height, channels)[12] == channels,
        header_bytes(width, height, channels)[13] == 1,
{
    let header = header_bytes(width, height, channels);
    assert(header.subrange(0, 4) =~= magic());
    assert(header.subrange(4, 8) =~= be_bytes(width));
    assert(header.subrange(8, 12) =~= be_bytes(height));
}

/// The header is determined by its arguments and determines them: equal
/// arguments give the same 14 bytes, and different arguments give different
/// bytes.
pub proof fn lemma_header_determined(
    width: u32,
    height: u32,
    channels: u8,
    other_width: u32,
    other_height: u32,
    other_channels: u8,
)
    ensures
        (width == other_width && height == other_height && channels == other_channels)
            <==> header_bytes(width, height, channels) == header_bytes(
            other_width,
            other_height,
            other_channels,
        ),
{
    if header_bytes(width, height, channels) == header_bytes(
        other_width,
        other_height,
        other_channels,
    ) {
        lemma_header_layout(width, height, channels);
        lemma_header_layout(other_width, other_height, other_channels);
        lemma_be_bytes_value(width);
        lemma_be_bytes_value(other_width);
        lemma_be_bytes_value(height);
        lemma_be_bytes_value(other_height);
    }
}

} // verus!
