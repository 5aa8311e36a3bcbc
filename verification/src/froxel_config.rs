//! Dimensions of the froxel grid (frustum cells: screen tiles × depth slices).

use vstd::prelude::*;

verus! {

/// Froxel columns across the screen.
pub const FROXEL_TILES_X: u32 = 16;

/// Froxel rows down the screen.
pub const FROXEL_TILES_Y: u32 = 16;

/// Depth slices between the near and far planes.
pub const FROXEL_DEPTH_SLICES: u32 = 24;

/// Most SDFs one froxel can list.
pub const MAX_SDFS_PER_FROXEL: u32 = 64;

/// Froxels in the whole grid.
pub const TOTAL_FROXELS: u32 = FROXEL_TILES_X * FROXEL_TILES_Y * FROXEL_DEPTH_SLICES;

/// Linear index of froxel `(x, y, z)`: x varies fastest, then y, then z.
pub open spec fn spec_froxel_index(x: int, y: int, z: int) -> int {
    z * (FROXEL_TILES_X * FROXEL_TILES_Y) + y * FROXEL_TILES_X + x
}

/// Whether `(x, y, z)` names a cell of the grid.
pub open spec fn in_froxel_grid(x: int, y: int, z: int) -> bool {
    0 <= x < FROXEL_TILES_X && 0 <= y < FROXEL_TILES_Y && 0 <= z < FROXEL_DEPTH_SLICES
}

/// Linear index of froxel `(x, y, z)` as `z * 256 + y * 16 + x`.
pub fn froxel_index(x: u32, y: u32, z: u32) -> (index: usize)
    requires
        spec_froxel_index(x as int, y as int, z as int) <= u32::MAX,
    ensures
        index == spec_froxel_index(x as int, y as int, z as int),
{
    (z * FROXEL_TILES_X * FROXEL_TILES_Y + y * FROXEL_TILES_X + x) as usize
}

/// Distinct cells of the grid have distinct indices, all below `TOTAL_FROXELS`.
pub proof fn lemma_froxel_index_is_a_bijection(x: int, y: int, z: int, x2: int, y2: int, z2: int)
    requires
        in_froxel_grid(x, y, z),
        in_froxel_grid(x2, y2, z2),
    ensures
        0 <= spec_froxel_index(x, y, z) < TOTAL_FROXELS,
        spec_froxel_index(x, y, z) == spec_froxel_index(x2, y2, z2) ==> x == x2 && y == y2 && z == z2,
{
}

/// Every index below `TOTAL_FROXELS` is the index of exactly one cell.
pub proof fn lemma_froxel_index_onto(i: int)
    requires
        0 <= i < TOTAL_FROXELS,
    ensures
        in_froxel_grid(i % 16, (i / 16) % 16, i / 256),
        spec_froxel_index(i % 16, (i / 16) % 16, i / 256) == i,
{
    assert(i == (i / 256) * 256 + ((i / 16) % 16) * 16 + i % 16) by (nonlinear_arith)
        requires 0 <= i;
    assert(i / 256 < 24) by (nonlinear_arith)
        requires 0 <= i < 6144;
}

} // verus!
