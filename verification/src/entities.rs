//! Entity data shared with the ray-marching shaders: precision classes, shape codes and
//! packed colours.

use vstd::prelude::*;

verus! {

/// How finely the ray marcher steps near an entity; lower classes step more finely.
#[derive(Copy, Clone, Debug, PartialEq, Eq, Structural)]
pub enum PrecisionClass {
    /// The player model: finest steps.
    Player,
    /// Creatures and interactive objects.
    Interactive,
    /// Static props such as trees and rocks (the default).
    Static,
    /// Large terrain features: coarsest steps.
    Terrain,
}

/// The code the shaders use for each class: 0, 1, 2 and 3 in declaration order.
pub open spec fn precision_code(class: PrecisionClass) -> u32 {
    match class {
        PrecisionClass::Player => 0,
        PrecisionClass::Interactive => 1,
        PrecisionClass::Static => 2,
        PrecisionClass::Terrain => 3,
    }
}

/// The class a shader code stands for; codes past 3 read as `Static`.
pub open spec fn precision_of_code(value: u32) -> PrecisionClass {
    if value == 0 {
        PrecisionClass::Player
    } else if value == 1 {
        PrecisionClass::Interactive
    } else if value == 3 {
        PrecisionClass::Terrain
    } else {
        PrecisionClass::Static
    }
}

impl PrecisionClass {
    /// The class a shader code stands for; unknown codes read as `Static`.
    pub fn from_u32(value: u32) -> (class: PrecisionClass)
        ensures
            class == precision_of_code(value),
    {
        match value {
            0 => PrecisionClass::Player,
            1 => PrecisionClass::Interactive,
            2 => PrecisionClass::Static,
            3 => PrecisionClass::Terrain,
            _ => PrecisionClass::Static,
        }
    }

    /// The shader code of this class.
    pub fn to_u32(self) -> (value: u32)
        ensures
            value == precision_code(self),
    {
        match self {
            PrecisionClass::Player => 0,
            PrecisionClass::Interactive => 1,
            PrecisionClass::Static => 2,
            PrecisionClass::Terrain => 3,
        }
    }
}

impl Default for PrecisionClass {
    /// `Static`, the class of ordinary props.
    fn default() -> (class: PrecisionClass)
        ensures
            class == PrecisionClass::Static,
    {
        PrecisionClass::Static
    }
}

/// Reading back the code of a class gives the class.
pub proof fn lemma_precision_code_round_trip(class: PrecisionClass)
    ensures
        precision_of_code(precision_code(class)) == class,
        precision_code(class) < 4,
{
}

/// The codes 0 to 3 are exactly the codes of the four classes; every other code reads as `Static`.
pub proof fn lemma_precision_code_onto(value: u32)
    ensures
        value < 4 ==> precision_code(precision_of_code(value)) == value,
        value >= 4 ==> precision_of_code(value) == PrecisionClass::Static,
{
}

/// Colours handed out to newly placed objects, in turn.
pub const ENTITY_COLORS: [(u8, u8, u8); 8] = [
    (255, 100, 50),
    (50, 200, 255),
    (255, 50, 150),
    (150, 255, 50),
    (255, 200, 50),
    (150, 50, 255),
    (50, 255, 150),
    (255, 150, 200),
];

/// Bytes of one placed entity as the shader lays it out.
pub const PLACED_ENTITY_SIZE: usize = 48;

/// Bytes of the placed-entity buffer: a 16-byte header and 64 entities.
pub const ENTITY_BUFFER_DATA_SIZE: usize = 16 + PLACED_ENTITY_SIZE * 64;

/// Bytes of one ray-marcher entity as the shader lays it out.
pub const GPU_ENTITY_SIZE: usize = 112;

/// Bytes of the ray-marcher entity buffer: a 16-byte header and 1024 entities.
pub const GPU_ENTITY_BUFFER_SIZE: usize = 16 + GPU_ENTITY_SIZE * 1024;

/// The word that holds `r`, `g`, `b` as `0x00RRGGBB`.
pub open spec fn rgb_word(r: u8, g: u8, b: u8) -> int {
    r * 0x10000 + g * 0x100 + b
}

/// Packs red, green and blue into `0x00RRGGBB`.
pub fn pack_color(r: u8, g: u8, b: u8) -> (packed: u32)
    ensures
        packed == rgb_word(r, g, b),
{
    let (r32, g32, b32) = (r as u32, g as u32, b as u32);
    assert((r32 << 16u32) | (g32 << 8u32) | b32 == r32 * 0x10000 + g32 * 0x100 + b32)
        by (bit_vector)
        requires
            r32 < 256,
            g32 < 256,
            b32 < 256,
    ;
    (r32 << 16u32) | (g32 << 8u32) | b32
}

/// Splits a packed `0x00RRGGBB` word into red, green and blue; the top byte is ignored.
pub fn unpack_color(packed: u32) -> (rgb: (u8, u8, u8))
    ensures
        rgb.0 == (packed / 0x10000) % 256,
        rgb.1 == (packed / 0x100) % 256,
        rgb.2 == packed % 256,
{
    assert((packed >> 16u32) & 0xFFu32 == (packed / 0x10000) % 256) by (bit_vector);
    assert((packed >> 8u32) & 0xFFu32 == (packed / 0x100) % 256) by (bit_vector);
    assert(packed & 0xFFu32 == packed % 256) by (bit_vector);
    let r = ((packed >> 16u32) & 0xFFu32) as u8;
    let g = ((packed >> 8u32) & 0xFFu32) as u8;
    let b = (packed & 0xFFu32) as u8;
    (r, g, b)
}

/// Unpacking a packed colour gives back the channels it was packed from.
pub proof fn lemma_unpack_color_inverts_pack(r: u8, g: u8, b: u8)
    ensures
        rgb_word(r, g, b) <= 0xFF_FFFF,
        (rgb_word(r, g, b) / 0x10000) % 256 == r,
        (rgb_word(r, g, b) / 0x100) % 256 == g,
        rgb_word(r, g, b) % 256 == b,
{
    let w = rgb_word(r, g, b);
    assert(w == r * 0x10000 + (g * 0x100 + b));
    vstd::arithmetic::div_mod::lemma_fundamental_div_mod_converse(w, 0x10000, r as int, g * 0x100 + b);
    vstd::arithmetic::div_mod::lemma_fundamental_div_mod_converse(w, 0x100, r * 0x100 + g as int, b as int);
    vstd::arithmetic::div_mod::lemma_fundamental_div_mod_converse(w, 256, r * 0x100 + g as int, b as int);
    vstd::arithmetic::div_mod::lemma_fundamental_div_mod_converse(r * 0x100 + g as int, 256, r as int, g as int);
}

/// Packing the channels of an unpacked word gives back the word without its top byte.
pub proof fn lemma_pack_color_inverts_unpack(packed: u32)
    ensures
        rgb_word(
            ((packed / 0x10000) % 256) as u8,
            ((packed / 0x100) % 256) as u8,
            (packed % 256) as u8,
        ) == packed % 0x100_0000,
{
    assert(((packed / 0x10000) % 256) * 0x10000 + ((packed / 0x100) % 256) * 0x100 + packed % 256
        == packed % 0x100_0000) by (bit_vector);
}

} // verus!
