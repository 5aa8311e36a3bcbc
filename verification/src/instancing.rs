//! Instance data for creature rendering: capacity and packed RGBA tints.

use vstd::prelude::*;

verus! {

/// Most creature instances the instance buffer holds.
pub const MAX_CREATURE_INSTANCES: usize = 2000;

/// Bytes of one creature instance (position, padding, rotation, scale, ids, tint).
pub const CREATURE_INSTANCE_SIZE: usize = 48;

/// Bytes of the whole instance buffer.
pub const INSTANCE_BUFFER_SIZE: usize = MAX_CREATURE_INSTANCES * CREATURE_INSTANCE_SIZE;

/// The word that holds `r`, `g`, `b`, `a` as `0xRRGGBBAA`.
pub open spec fn rgba_word(r: u8, g: u8, b: u8, a: u8) -> int {
    r * 0x1000000 + g * 0x10000 + b * 0x100 + a
}

/// Packs red, green, blue and alpha into `0xRRGGBBAA`.
pub fn pack_rgba(r: u8, g: u8, b: u8, a: u8) -> (packed: u32)
    ensures
        packed == rgba_word(r, g, b, a),
{
    let (r32, g32, b32, a32) = (r as u32, g as u32, b as u32, a as u32);
    assert((r32 << 24u32) | (g32 << 16u32) | (b32 << 8u32) | a32
        == r32 * 0x1000000 + g32 * 0x10000 + b32 * 0x100 + a32)
        by (bit_vector)
        requires
            r32 < 256,
            g32 < 256,
            b32 < 256,
            a32 < 256,
    ;
    (r32 << 24u32) | (g32 << 16u32) | (b32 << 8u32) | a32
}

/// Splits a packed `0xRRGGBBAA` word into red, green, blue and alpha.
pub fn unpack_rgba(packed: u32) -> (rgba: (u8, u8, u8, u8))
    ensures
        rgba.0 == packed / 0x1000000,
        rgba.1 == (packed / 0x10000) % 256,
        rgba.2 == (packed / 0x100) % 256,
        rgba.3 == packed % 256,
{
    assert((packed >> 24u32) & 0xFFu32 == packed / 0x1000000) by (bit_vector);
    assert((packed >> 16u32) & 0xFFu32 == (packed / 0x10000) % 256) by (bit_vector);
    assert((packed >> 8u32) & 0xFFu32 == (packed / 0x100) % 256) by (bit_vector);
    assert(packed & 0xFFu32 == packed % 256) by (bit_vector);
    let r = ((packed >> 24u32) & 0xFFu32) as u8;
    let g = ((packed >> 16u32) & 0xFFu32) as u8;
    let b = ((packed >> 8u32) & 0xFFu32) as u8;
    let a = (packed & 0xFFu32) as u8;
    (r, g, b, a)
}

/// Unpacking a packed RGBA word gives back the four channels it was packed from.
pub proof fn lemma_unpack_rgba_inverts_pack(r: u8, g: u8, b: u8, a: u8)
    ensures
        rgba_word(r, g, b, a) <= 0xFFFF_FFFF,
        rgba_word(r, g, b, a) / 0x1000000 == r,
        (rgba_word(r, g, b, a) / 0x10000) % 256 == g,
        (rgba_word(r, g, b, a) / 0x100) % 256 == b,
        rgba_word(r, g, b, a) % 256 == a,
{
    let (r32, g32, b32, a32) = (r as u32, g as u32, b as u32, a as u32);
    assert({
        let w = r32 * 0x1000000 + g32 * 0x10000 + b32 * 0x100 + a32;
        &&& w <= 0xFFFF_FFFF
        &&& w / 0x1000000 == r32
        &&& (w / 0x10000) % 256 == g32
        &&& (w / 0x100) % 256 == b32
        &&& w % 256 == a32
    }) by (bit_vector)
        requires
            r32 < 256,
            g32 < 256,
            b32 < 256,
            a32 < 256,
    ;
}

/// Packing the four channels of an unpacked word gives back the word.
pub proof fn lemma_pack_rgba_inverts_unpack(packed: u32)
    ensures
        rgba_word(
            (packed / 0x1000000) as u8,
            ((packed / 0x10000) % 256) as u8,
            ((packed / 0x100) % 256) as u8,
            (packed % 256) as u8,
        ) == packed,
{
    assert((packed / 0x1000000) * 0x1000000 + ((packed / 0x10000) % 256) * 0x10000
        + ((packed / 0x100) % 256) * 0x100 + packed % 256 == packed) by (bit_vector);
}

} // verus!
