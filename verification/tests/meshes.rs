use battle_tok_render::froxel_bounds::{change_hash, needs_update};
use battle_tok_render::hex_prism::wall_cells;
use battle_tok_render::mesh_topology::{
    append_offset_indices, arch_mesh_indices, box_mesh_indices, cylinder_mesh_indices,
    dome_mesh_indices, flag_grid_indices, flag_quad_indices, hex_prism_mesh_indices,
    sphere_mesh_indices, wedge_mesh_indices, BOX_VERTEX_COUNT, HEX_PRISM_VERTEX_COUNT,
};

#[test]
fn flag_quad_has_two_triangles() {
    assert_eq!(flag_quad_indices(), vec![0, 1, 2, 0, 2, 3]);
}

#[test]
fn flag_grid_two_by_one() {
    // vertices: row 0 = 0 1 2, row 1 = 3 4 5
    assert_eq!(
        flag_grid_indices(2, 1),
        vec![0, 1, 4, 0, 4, 3, 1, 2, 5, 1, 5, 4]
    );
    assert!(flag_grid_indices(0, 5).is_empty());
    let big = flag_grid_indices(8, 4);
    assert_eq!(big.len(), 6 * 8 * 4);
    assert!(big.iter().all(|&i| (i as u32) < 9 * 5));
}

#[test]
fn flag_grid_indices_wrap_to_16_bits() {
    // 300 x 300 cells have 90,601 vertices, more than 16-bit indices can name
    let indices = flag_grid_indices(300, 300);
    let cols = 301u32;
    let k = 6 * (299 * 300 + 299); // last cell
    let base = 299 * cols + 299;
    assert_eq!(indices[k] as u32, base % 65536);
    assert_eq!(indices[k + 2] as u32, (base + cols + 1) % 65536);
}

#[test]
fn box_indices_two_triangles_per_face() {
    let indices = box_mesh_indices();
    assert_eq!(indices.len(), 36);
    assert_eq!(&indices[0..6], &[0, 1, 2, 0, 2, 3]);
    assert_eq!(&indices[30..36], &[20, 21, 22, 20, 22, 23]);
}

#[test]
fn hex_prism_indices() {
    let indices = hex_prism_mesh_indices();
    assert_eq!(indices.len(), 72);
    assert!(indices.iter().all(|&i| i < HEX_PRISM_VERTEX_COUNT));
    assert_eq!(&indices[0..3], &[0, 1, 2]);
    assert_eq!(&indices[15..18], &[0, 6, 1]);
    assert_eq!(&indices[18..21], &[7, 9, 8]);
    assert_eq!(&indices[36..42], &[14, 17, 16, 14, 16, 15]);
}

#[test]
fn sphere_indices_skip_pole_triangles() {
    // 3 segments, 2 rings: ring 0 only lower triangles, ring 1 (last) only upper triangles
    let indices = sphere_mesh_indices(3, 2);
    assert_eq!(indices.len(), 2 * 3 * 3);
    assert_eq!(&indices[0..3], &[1, 4, 5]);
    assert_eq!(&indices[9..12], &[4, 8, 5]);
    let one_ring = sphere_mesh_indices(4, 1);
    assert!(one_ring.is_empty());
}

#[test]
fn dome_indices_end_with_base_fan() {
    let indices = dome_mesh_indices(3, 1);
    // 3 lower triangles on ring 0, then 3 base triangles around centre vertex 8
    assert_eq!(indices.len(), 18);
    assert_eq!(&indices[9..12], &[8, 9, 10]);
    assert_eq!(&indices[15..18], &[8, 11, 9]);
}

#[test]
fn cylinder_indices() {
    let indices = cylinder_mesh_indices(3);
    assert_eq!(indices.len(), 18 + 9 + 9);
    assert_eq!(&indices[0..6], &[0, 2, 1, 1, 2, 3]);
    // top centre 8, ring 9..12; bottom centre 12, ring 13..16
    assert_eq!(&indices[18..21], &[8, 10, 9]);
    assert_eq!(&indices[24..27], &[8, 9, 11]);
    assert_eq!(&indices[27..30], &[12, 13, 14]);
}

#[test]
fn merged_indices_are_shifted() {
    let mut all = vec![0, 1, 2];
    append_offset_indices(&mut all, &vec![0, 1, 2], 3);
    assert_eq!(all, vec![0, 1, 2, 3, 4, 5]);
}

#[test]
fn camera_hash_folds_parameters() {
    let q = [1, 2, 3, 4, 5, 6, 7, 8, 9, 10];
    let mut expected: u64 = 0;
    for (i, v) in q.iter().enumerate() {
        expected = expected.wrapping_add(*v as i64 as u64);
        if i < 9 {
            expected = expected.wrapping_mul(31);
        }
    }
    assert_eq!(change_hash(&q), expected);
    let negative = [-1, 0, 0, 0, 0, 0, 0, 0, 0, 0];
    assert_eq!(change_hash(&negative), u64::MAX.wrapping_mul(31u64.pow(9)));
    assert_ne!(change_hash(&q), change_hash(&negative));
    assert!(needs_update(1, 2, true));
    assert!(needs_update(1, 1, false));
    assert!(!needs_update(1, 1, true));
}

#[test]
fn wall_cells_column_by_column() {
    assert_eq!(
        wall_cells(5, -2, 2, 3),
        vec![(5, -2, 0), (5, -2, 1), (5, -2, 2), (6, -2, 0), (6, -2, 1), (6, -2, 2)]
    );
    assert!(wall_cells(0, 0, 0, 3).is_empty());
    assert!(wall_cells(0, 0, 3, -1).is_empty());
}

#[test]
fn arch_indices_boxes_then_arcs() {
    let idx = arch_mesh_indices(2);
    // three boxes of 36 indices, then 2 segments x 6 indices on each face
    assert_eq!(idx.len(), 3 * 36 + 2 * 2 * 6);
    let boxes = box_mesh_indices();
    assert_eq!(&idx[0..36], &boxes[..]);
    assert_eq!(idx[36], 24);
    assert_eq!(idx[72], 48);
    // front face: outer arc at 72..75, inner at 75..78
    assert_eq!(&idx[108..120], &[72, 73, 75, 75, 73, 76, 73, 74, 76, 76, 74, 77]);
    // back face: outer arc at 78..81, inner at 81..84
    assert_eq!(&idx[120..132], &[78, 81, 79, 81, 82, 79, 79, 82, 80, 82, 83, 80]);
    let vertex_count = 3 * BOX_VERTEX_COUNT + 4 * (2 + 1);
    assert!(idx.iter().all(|&i| i < vertex_count));
}

#[test]
fn wedge_indices_quads_then_triangles() {
    let idx = wedge_mesh_indices();
    assert_eq!(idx.len(), 24);
    assert_eq!(&idx[18..], &[12, 13, 14, 15, 16, 17]);
    assert!(idx.iter().all(|&i| i < 18));
}

#[test]
fn mesh_indices_name_existing_vertices() {
    assert!(box_mesh_indices().iter().all(|&i| i < BOX_VERTEX_COUNT));
    let (segments, rings) = (8u32, 5u32);
    assert!(sphere_mesh_indices(segments, rings).iter().all(|&i| i < (rings + 1) * (segments + 1)));
    let dome_vertices = (rings + 1) * (segments + 1) + 1 + segments;
    let dome = dome_mesh_indices(segments, rings);
    assert!(dome.iter().all(|&i| i < dome_vertices));
    assert_eq!(dome.iter().copied().max(), Some(dome_vertices - 1));
    let cylinder = cylinder_mesh_indices(segments);
    assert!(cylinder.iter().all(|&i| i < 4 * segments + 4));
    assert_eq!(cylinder.iter().copied().max(), Some(4 * segments + 3));
    assert!(hex_prism_mesh_indices().iter().all(|&i| i < HEX_PRISM_VERTEX_COUNT));
}

#[test]
fn wall_cells_with_no_levels_needs_no_column_sum() {
    assert!(wall_cells(i32::MAX, 0, 5, 0).is_empty());
}
