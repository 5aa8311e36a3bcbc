use battle_tok_render::froxel_assignment::{
    AssignmentUniforms, ASSIGNMENT_UNIFORMS_SIZE, MAX_SDF_COUNT, SDF_BOUNDS_BUFFER_SIZE, SDF_BOUNDS_SIZE,
};
use battle_tok_render::froxel_buffers::{
    FroxelSDFList, FroxelSDFListBuffer, FROXEL_BOUNDS_BUFFER_SIZE, FROXEL_BOUNDS_SIZE,
    FROXEL_SDF_LIST_BUFFER_SIZE, FROXEL_SDF_LIST_SIZE,
};
use battle_tok_render::froxel_config::{
    froxel_index, FROXEL_DEPTH_SLICES, FROXEL_TILES_X, FROXEL_TILES_Y, MAX_SDFS_PER_FROXEL, TOTAL_FROXELS,
};
use battle_tok_render::froxel_dispatch::{
    plan_froxel_assign, ASSIGN_WORKGROUP_SIZE, CLEAR_WORKGROUP_COUNT, CLEAR_WORKGROUP_SIZE,
};

#[test]
fn froxel_config_test_constants() {
    assert_eq!(FROXEL_TILES_X, 16);
    assert_eq!(FROXEL_TILES_Y, 16);
    assert_eq!(FROXEL_DEPTH_SLICES, 24);
    assert_eq!(MAX_SDFS_PER_FROXEL, 64);
    assert_eq!(TOTAL_FROXELS, 16 * 16 * 24);
}

#[test]
fn test_froxel_sdf_list_size() {
    assert_eq!(std::mem::size_of::<FroxelSDFList>(), 272);
}

#[test]
fn test_froxel_sdf_list_buffer_size() {
    assert_eq!(
        std::mem::size_of::<FroxelSDFListBuffer>(),
        16 + 272 * TOTAL_FROXELS as usize
    );
}

#[test]
fn test_froxel_sdf_list_add() {
    let mut list = FroxelSDFList::new();

    assert!(list.is_empty());
    assert!(!list.is_full());
    assert_eq!(list.len(), 0);

    assert!(list.add(5));
    assert!(list.add(10));
    assert!(list.add(15));

    assert!(!list.is_empty());
    assert_eq!(list.len(), 3);

    let indices: Vec<u32> = list.iter();
    assert_eq!(indices, vec![5, 10, 15]);
}

#[test]
fn test_froxel_sdf_list_full() {
    let mut list = FroxelSDFList::new();
    for i in 0..MAX_SDFS_PER_FROXEL {
        assert!(list.add(i), "Should add index {}", i);
    }
    assert!(list.is_full());
    assert_eq!(list.len(), MAX_SDFS_PER_FROXEL);
    assert!(!list.add(999));
    assert_eq!(list.len(), MAX_SDFS_PER_FROXEL);
}

#[test]
fn test_froxel_sdf_list_clear() {
    let mut list = FroxelSDFList::new();
    list.add(1);
    list.add(2);
    list.add(3);
    assert_eq!(list.len(), 3);
    list.clear();
    assert!(list.is_empty());
    assert_eq!(list.len(), 0);
}

#[test]
fn test_froxel_index_calculation() {
    assert_eq!(FroxelSDFListBuffer::froxel_index(0, 0, 0), 0);
    assert_eq!(FroxelSDFListBuffer::froxel_index(1, 0, 0), 1);
    assert_eq!(FroxelSDFListBuffer::froxel_index(15, 0, 0), 15);
    assert_eq!(FroxelSDFListBuffer::froxel_index(0, 1, 0), 16);
    assert_eq!(FroxelSDFListBuffer::froxel_index(0, 0, 1), 256);
    assert_eq!(
        FroxelSDFListBuffer::froxel_index(15, 15, 23),
        (TOTAL_FROXELS - 1) as usize
    );
}

#[test]
fn test_froxel_sdf_list_buffer_access() {
    let mut buffer = Box::new(FroxelSDFListBuffer::new());
    assert!(buffer.add_sdf(3, 4, 5, 42));
    assert!(buffer.add_sdf(3, 4, 5, 100));
    let list = buffer.get(3, 4, 5);
    assert_eq!(list.len(), 2);
    let indices: Vec<u32> = list.iter();
    assert_eq!(indices, vec![42, 100]);
    assert!(buffer.get(0, 0, 0).is_empty());
}

#[test]
fn test_froxel_sdf_list_buffer_clear_all() {
    let mut buffer = Box::new(FroxelSDFListBuffer::new());
    buffer.add_sdf(0, 0, 0, 1);
    buffer.add_sdf(1, 1, 1, 2);
    buffer.add_sdf(5, 5, 5, 3);
    assert!(!buffer.get(0, 0, 0).is_empty());
    assert!(!buffer.get(1, 1, 1).is_empty());
    assert!(!buffer.get(5, 5, 5).is_empty());
    buffer.clear_all();
    assert!(buffer.get(0, 0, 0).is_empty());
    assert!(buffer.get(1, 1, 1).is_empty());
    assert!(buffer.get(5, 5, 5).is_empty());
}

#[test]
fn froxel_buffers_test_buffer_size_constants() {
    assert_eq!(FROXEL_BOUNDS_SIZE, 32);
    assert_eq!(FROXEL_SDF_LIST_SIZE, 272);
    assert_eq!(FROXEL_BOUNDS_BUFFER_SIZE, 16 + 32 * 6144);
    assert_eq!(FROXEL_SDF_LIST_BUFFER_SIZE, 16 + 272 * 6144);
}

#[test]
fn test_total_froxels_matches() {
    assert_eq!(
        TOTAL_FROXELS,
        FROXEL_TILES_X * FROXEL_TILES_Y * FROXEL_DEPTH_SLICES
    );
    assert_eq!(TOTAL_FROXELS, 6144);
}

#[test]
fn test_assignment_uniforms_size() {
    assert_eq!(std::mem::size_of::<AssignmentUniforms>(), 16);
}

#[test]
fn test_assignment_uniforms_new() {
    let uniforms = AssignmentUniforms::new(42);
    assert_eq!(uniforms.creature_count, 42);
    assert_eq!(uniforms.froxel_count, TOTAL_FROXELS);
}

#[test]
fn test_assignment_uniforms_default() {
    let uniforms = AssignmentUniforms::default();
    assert_eq!(uniforms.creature_count, 0);
    assert_eq!(uniforms.froxel_count, TOTAL_FROXELS);
}

#[test]
fn froxel_assignment_test_buffer_size_constants() {
    assert_eq!(SDF_BOUNDS_SIZE, 32);
    assert_eq!(SDF_BOUNDS_BUFFER_SIZE, 16 + 32 * 1024);
    assert_eq!(ASSIGNMENT_UNIFORMS_SIZE, 16);
}

#[test]
fn test_workgroup_count() {
    assert_eq!(CLEAR_WORKGROUP_COUNT, 96);
}

#[test]
fn test_covers_all_froxels() {
    assert!(CLEAR_WORKGROUP_COUNT * CLEAR_WORKGROUP_SIZE >= TOTAL_FROXELS);
}

#[test]
fn test_assign_workgroup_size_matches_shader() {
    assert_eq!(ASSIGN_WORKGROUP_SIZE, 256);
}

#[test]
fn test_assign_workgroup_count_single() {
    let count = (1 + ASSIGN_WORKGROUP_SIZE - 1) / ASSIGN_WORKGROUP_SIZE;
    assert_eq!(count, 1);
}

#[test]
fn test_assign_workgroup_count_exact() {
    let count = (256 + ASSIGN_WORKGROUP_SIZE - 1) / ASSIGN_WORKGROUP_SIZE;
    assert_eq!(count, 1);
}

#[test]
fn test_assign_workgroup_count_overflow() {
    let count = (257 + ASSIGN_WORKGROUP_SIZE - 1) / ASSIGN_WORKGROUP_SIZE;
    assert_eq!(count, 2);
}

#[test]
fn test_assign_workgroup_count_max() {
    let count = (1024 + ASSIGN_WORKGROUP_SIZE - 1) / ASSIGN_WORKGROUP_SIZE;
    assert_eq!(count, 4);
}

#[test]
fn plan_froxel_assign_caps_and_rounds_up() {
    assert!(plan_froxel_assign(0).is_none());
    let one = plan_froxel_assign(1).unwrap();
    assert_eq!(one.workgroup_count, 1);
    assert_eq!(one.uniforms.creature_count, 1);
    let many = plan_froxel_assign(257).unwrap();
    assert_eq!(many.workgroup_count, 2);
    // counts past the maximum are capped before dispatching
    let capped = plan_froxel_assign(5000).unwrap();
    assert_eq!(capped.uniforms.creature_count, MAX_SDF_COUNT);
    assert_eq!(capped.workgroup_count, 4);
    assert_eq!(capped.uniforms.froxel_count, TOTAL_FROXELS);
}

#[test]
fn froxel_index_is_x_fastest() {
    assert_eq!(froxel_index(2, 3, 4), 4 * 256 + 3 * 16 + 2);
}

#[test]
fn add_sdf_fills_only_one_froxel() {
    let mut buffer = Box::new(FroxelSDFListBuffer::default());
    for i in 0..MAX_SDFS_PER_FROXEL {
        assert!(buffer.add_sdf(15, 15, 23, i));
    }
    assert!(!buffer.add_sdf(15, 15, 23, 1000));
    assert!(buffer.get(15, 15, 23).is_full());
    assert!(buffer.get(14, 15, 23).is_empty());
    buffer.get_mut(14, 15, 23).add(7);
    assert_eq!(buffer.get(14, 15, 23).iter(), vec![7]);
    assert_eq!(buffer.count, TOTAL_FROXELS);
}

#[test]
fn test_froxel_list_refuses_past_capacity() {
    let mut list = FroxelSDFList::new();
    list.count = 70;
    assert!(!list.add(9));
    assert_eq!(list.count, 70);
}
