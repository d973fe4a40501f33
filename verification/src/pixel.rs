//! Pixels and the hash that indexes the pixel cache.

use vstd::prelude::*;

verus! {

/// One pixel: four 8-bit channels. A pixel has no identity beyond its
/// channel values.
#[derive(Debug, Clone, Copy, PartialEq, Eq, Structural)]
pub struct RGBAPixel {
    pub r: u8,
    pub g: u8,
    pub b: u8,
    pub a: u8,
}

/// The slot of the pixel cache that `pixel` maps to: a weighted sum of the
/// channels, modulo the 64 slots of the cache.
pub open spec fn hash_slot(pixel: RGBAPixel) -> int {
    (pixel.r * 3 + pixel.g * 5 + pixel.b * 7 + pixel.a * 11) % 64
}

/// Computes the cache slot of `pixel`. The sum is taken in `usize`, where it
/// cannot overflow, and the result always names one of the 64 slots.
pub fn calculate_hash(pixel: RGBAPixel) -> (slot: usize)
    ensures
        slot == hash_slot(pixel),
        slot < 64,
{
    let r: usize = pixel.r as usize;
    let g: usize = pixel.g as usize;
    let b: usize = pixel.b as usize;
    let a: usize = pixel.a as usize;
    (r * 3 + g * 5 + b * 7 + a * 11) % 64
}

} // verus!
