//! Workgroup sizing of the froxel compute passes.

use vstd::prelude::*;
use crate::froxel_assignment::{AssignmentUniforms, MAX_SDF_COUNT};
use crate::froxel_config::TOTAL_FROXELS;

verus! {

/// Threads per workgroup of the clear pass (as the shader declares).
pub const CLEAR_WORKGROUP_SIZE: u32 = 64;

/// Workgroups of the clear pass: one thread per froxel, rounded up.
pub const CLEAR_WORKGROUP_COUNT: u32 = (TOTAL_FROXELS + CLEAR_WORKGROUP_SIZE - 1) / CLEAR_WORKGROUP_SIZE;

/// Threads per workgroup of the assignment pass (as the shader declares).
pub const ASSIGN_WORKGROUP_SIZE: u32 = 256;

/// `a / b` rounded up.
pub open spec fn div_ceil(a: int, b: int) -> int {
    (a + b - 1) / b
}

/// The clear pass covers every froxel, with less than one workgroup to spare.
pub proof fn lemma_clear_dispatch_covers_grid()
    ensures
        CLEAR_WORKGROUP_COUNT == 96,
        CLEAR_WORKGROUP_COUNT * CLEAR_WORKGROUP_SIZE >= TOTAL_FROXELS,
        (CLEAR_WORKGROUP_COUNT - 1) * CLEAR_WORKGROUP_SIZE < TOTAL_FROXELS,
{
}

/// What the assignment pass is dispatched with.
#[derive(Copy, Clone, Debug)]
pub struct AssignDispatch {
    /// The uniforms to upload (the SDF count, capped at `MAX_SDF_COUNT`).
    pub uniforms: AssignmentUniforms,
    /// Workgroups to dispatch: one thread per SDF, rounded up.
    pub workgroup_count: u32,
}

/// How to dispatch the assignment pass for a bounds buffer that claims `sdf_count` SDFs:
/// `None` when no SDF is left after capping at `MAX_SDF_COUNT`, so nothing is dispatched.
pub fn plan_froxel_assign(sdf_count: u32) -> (plan: Option<AssignDispatch>)
    ensures
        ({
            let n = if sdf_count < MAX_SDF_COUNT { sdf_count } else { MAX_SDF_COUNT };
            match plan {
                None => n == 0,
                Some(p) => {
                    &&& n > 0
                    &&& p.uniforms == AssignmentUniforms::spec_new(n)
                    &&& p.workgroup_count == div_ceil(n as int, ASSIGN_WORKGROUP_SIZE as int)
                    &&& p.workgroup_count * ASSIGN_WORKGROUP_SIZE >= n
                    &&& (p.workgroup_count - 1) * ASSIGN_WORKGROUP_SIZE < n
                },
            }
        }),
{
    let n = if sdf_count < MAX_SDF_COUNT { sdf_count } else { MAX_SDF_COUNT };
    if n == 0 {
        return None;
    }
    let workgroup_count = (n + ASSIGN_WORKGROUP_SIZE - 1) / ASSIGN_WORKGROUP_SIZE;
    Some(AssignDispatch { uniforms: AssignmentUniforms::new(n), workgroup_count })
}

} // verus!
