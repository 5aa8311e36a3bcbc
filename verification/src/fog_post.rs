//! The lattice hashing of the volumetric fog noise.

use vstd::prelude::*;

verus! {

/// Edge length in texels of the fog's 3D noise texture.
pub const NOISE_3D_SIZE: u32 = 64;

/// Ken Perlin's reference permutation of 0..=255.
pub const PERLIN_PERMUTATION: [u8; 256] = [
    151, 160, 137, 91, 90, 15, 131, 13, 201, 95, 96, 53, 194, 233, 7, 225,
    140, 36, 103, 30, 69, 142, 8, 99, 37, 240, 21, 10, 23, 190, 6, 148,
    247, 120, 234, 75, 0, 26, 197, 62, 94, 252, 219, 203, 117, 35, 11, 32,
    57, 177, 33, 88, 237, 149, 56, 87, 174, 20, 125, 136, 171, 168, 68, 175,
    74, 165, 71, 134, 139, 48, 27, 166, 77, 146, 158, 231, 83, 111, 229, 122,
    60, 211, 133, 230, 220, 105, 92, 41, 55, 46, 245, 40, 244, 102, 143, 54,
    65, 25, 63, 161, 1, 216, 80, 73, 209, 76, 132, 187, 208, 89, 18, 169,
    200, 196, 135, 130, 116, 188, 159, 86, 164, 100, 109, 198, 173, 186, 3, 64,
    52, 217, 226, 250, 124, 123, 5, 202, 38, 147, 118, 126, 255, 82, 85, 212,
    207, 206, 59, 227, 47, 16, 58, 17, 182, 189, 28, 42, 223, 183, 170, 213,
    119, 248, 152, 2, 44, 154, 163, 70, 221, 153, 101, 155, 167, 43, 172, 9,
    129, 22, 39, 253, 19, 98, 108, 110, 79, 113, 224, 232, 178, 185, 112, 104,
    218, 246, 97, 228, 251, 34, 242, 193, 238, 210, 144, 12, 191, 179, 162, 241,
    81, 51, 145, 235, 249, 14, 239, 107, 49, 192, 214, 31, 181, 199, 106, 157,
    184, 84, 204, 176, 115, 121, 50, 45, 127, 4, 150, 254, 138, 236, 205, 93,
    222, 114, 67, 29, 24, 72, 243, 141, 128, 195, 78, 66, 215, 61, 156, 180,
];

/// The permutation table doubled, so that lookups at sums of two lattice hashes need no wrap.
pub fn perm_table() -> (perm: [u8; 512])
    ensures
        forall|i: int| 0 <= i < 512 ==> #[trigger] perm@[i] == PERLIN_PERMUTATION@[i % 256],
{
    let mut perm = [0u8; 512];
    let mut i: usize = 0;
    while i < 256
        invariant
            i <= 256,
            forall|j: int| 0 <= j < i ==> #[trigger] perm@[j] == PERLIN_PERMUTATION@[j],
            forall|j: int| 256 <= j < 256 + i ==> #[trigger] perm@[j] == PERLIN_PERMUTATION@[j - 256],
        decreases 256 - i,
    {
        perm[i] = PERLIN_PERMUTATION[i];
        perm[i + 256] = PERLIN_PERMUTATION[i];
        i = i + 1;
    }
    proof {
        assert forall|j: int| 0 <= j < 512 implies #[trigger] perm@[j] == PERLIN_PERMUTATION@[j % 256] by {
            if j < 256 {
                assert(j % 256 == j);
            } else {
                assert(j % 256 == j - 256);
            }
        }
    }
    perm
}

} // verus!
