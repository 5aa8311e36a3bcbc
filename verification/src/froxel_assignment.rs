//! Parameters of the SDF-to-froxel assignment pass.

use vstd::prelude::*;
use crate::froxel_config::TOTAL_FROXELS;

verus! {

/// Most SDFs the assignment pass processes.
pub const MAX_SDF_COUNT: u32 = 1024;

/// Bytes of one SDF's world-space bounds (min and max corner, each padded to 16 bytes).
pub const SDF_BOUNDS_SIZE: usize = 32;

/// Bytes of the SDF bounds buffer: a 16-byte header and `MAX_SDF_COUNT` bounds.
pub const SDF_BOUNDS_BUFFER_SIZE: usize = 16 + SDF_BOUNDS_SIZE * 1024;

/// Bytes of the assignment uniforms.
pub const ASSIGNMENT_UNIFORMS_SIZE: usize = 16;

/// Uniforms of the assignment pass.
#[derive(Copy, Clone, Debug)]
pub struct AssignmentUniforms {
    /// Number of SDFs to process.
    pub creature_count: u32,
    /// Number of froxels (always `TOTAL_FROXELS`).
    pub froxel_count: u32,
    /// Reserved.
    pub _pad0: u32,
    /// Reserved.
    pub _pad1: u32,
}

impl AssignmentUniforms {
    /// The uniforms for `creature_count` SDFs.
    pub open spec fn spec_new(creature_count: u32) -> AssignmentUniforms {
        AssignmentUniforms { creature_count, froxel_count: TOTAL_FROXELS, _pad0: 0, _pad1: 0 }
    }

    /// Uniforms for `creature_count` SDFs over the whole froxel grid.
    pub fn new(creature_count: u32) -> (uniforms: AssignmentUniforms)
        ensures
            uniforms == AssignmentUniforms::spec_new(creature_count),
    {
        AssignmentUniforms { creature_count, froxel_count: TOTAL_FROXELS, _pad0: 0, _pad1: 0 }
    }
}

impl Default for AssignmentUniforms {
    /// Uniforms for no SDF over the whole froxel grid.
    fn default() -> (uniforms: AssignmentUniforms)
        ensures
            uniforms.creature_count == 0,
            uniforms.froxel_count == TOTAL_FROXELS,
            uniforms._pad0 == 0,
            uniforms._pad1 == 0,
    {
        AssignmentUniforms::new(0)
    }
}

} // verus!
