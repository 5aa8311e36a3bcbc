use std::collections::{HashMap, HashSet};

use battle_tok_render::hex_prism::{cell_key, key_cell, wall_cells, HexPrismGrid};
use battle_tok_render::structural_support::{cascade_support_check, has_support, SupportFlags};

/// The prism a test stores: what the engine's hex prism carries.
#[derive(Clone, Copy, Debug, PartialEq)]
struct HexPrism {
    height: f32,
    radius: f32,
    material: u8,
}

impl HexPrism {
    fn new(height: f32, radius: f32, material: u8) -> Self {
        HexPrism { height, radius, material }
    }
}

#[test]
fn test_hex_prism_grid_insert_get() {
    let mut grid = HexPrismGrid::new();
    let prism = HexPrism::new(0.5, 0.3, 1);

    let prev = grid.insert(0, 0, 0, prism);
    assert!(prev.is_none());

    let retrieved = grid.get(0, 0, 0);
    assert!(retrieved.is_some());
    let retrieved = retrieved.unwrap();
    assert_eq!(retrieved.height, 0.5);
    assert_eq!(retrieved.radius, 0.3);
    assert_eq!(retrieved.material, 1);
}

#[test]
fn test_hex_prism_grid_remove() {
    let mut grid = HexPrismGrid::new();
    grid.insert(1, 2, 3, HexPrism::new(1.0, 0.5, 1));

    assert!(grid.contains(1, 2, 3));
    assert_eq!(grid.len(), 1);

    let removed = grid.remove(1, 2, 3);
    assert!(removed.is_some());
    assert!(!grid.contains(1, 2, 3));
    assert!(grid.is_empty());
}

#[test]
fn grid_insert_replaces_and_marks_mesh_dirty() {
    let mut grid: HexPrismGrid<u8> = HexPrismGrid::with_capacity(4);
    assert!(!grid.needs_mesh_update());
    assert_eq!(grid.insert(-1, 5, 0, 1), None);
    assert!(grid.needs_mesh_update());
    grid.clear_mesh_dirty();
    assert!(!grid.needs_mesh_update());
    assert_eq!(grid.insert(-1, 5, 0, 2), Some(1));
    assert_eq!(grid.get(-1, 5, 0), Some(&2));
    assert_eq!(grid.len(), 1);
    grid.clear_mesh_dirty();

    // Removing an empty cell leaves the mesh up to date.
    assert_eq!(grid.remove_by_coord((7, 7, 7)), None);
    assert!(!grid.needs_mesh_update());
    assert_eq!(grid.remove_by_coord((-1, 5, 0)), Some(2));
    assert!(grid.needs_mesh_update());
}

#[test]
fn cell_keys_are_distinct_and_decode() {
    let cells = [(0, 0, 0), (1, 0, 0), (0, 1, 0), (0, 0, 1), (-1, 0, 0), (i32::MIN, i32::MAX, -7)];
    for a in cells {
        assert_eq!(key_cell(cell_key(a.0, a.1, a.2)), a);
        for b in cells {
            assert_eq!(cell_key(a.0, a.1, a.2) == cell_key(b.0, b.1, b.2), a == b);
        }
    }
}

#[test]
fn create_wall_fills_wall_cells() {
    let mut grid: HexPrismGrid<(i32, i32, i32)> = HexPrismGrid::default();
    grid.insert(9, 9, 9, (0, 0, 0));
    grid.create_wall(2, -3, 3, 2, |cell| cell);

    let expected = wall_cells(2, -3, 3, 2);
    assert_eq!(expected.len(), 6);
    assert_eq!(expected[0], (2, -3, 0));
    assert_eq!(expected[1], (2, -3, 1));
    assert_eq!(expected[5], (4, -3, 1));
    for c in &expected {
        assert_eq!(grid.get(c.0, c.1, c.2), Some(c));
    }
    assert_eq!(grid.len(), 7);
    assert_eq!(grid.get(9, 9, 9), Some(&(0, 0, 0)));

    let mut coords = grid.coords();
    coords.sort();
    let mut all = expected.clone();
    all.push((9, 9, 9));
    all.sort();
    assert_eq!(coords, all);

    grid.clear_mesh_dirty();
    grid.clear();
    assert!(grid.is_empty());
    assert!(grid.coords().is_empty());
    assert!(grid.needs_mesh_update());

    grid.clear_mesh_dirty();
    grid.clear();
    assert!(!grid.needs_mesh_update());
}

#[test]
fn test_hex_prism_grid_remove_lowers_len() {
    let mut grid: HexPrismGrid<u8> = HexPrismGrid::new();
    grid.insert(0, 0, 0, 1);
    grid.insert(1, 0, 0, 2);
    grid.clear_mesh_dirty();
    assert_eq!(grid.remove(5, 5, 5), None);
    assert_eq!(grid.len(), 2);
    assert!(!grid.needs_mesh_update());
    assert_eq!(grid.remove(1, 0, 0), Some(2));
    assert_eq!(grid.len(), 1);
    assert!(!grid.contains(1, 0, 0));
    assert_eq!(grid.get(0, 0, 0), Some(&1));
    assert!(grid.needs_mesh_update());
}

fn tower() -> (HashMap<u32, SupportFlags>, HashMap<u32, Vec<u32>>, HashSet<u32>, HashSet<u32>) {
    let mut states = HashMap::new();
    states.insert(1, SupportFlags::on_terrain());
    states.insert(2, SupportFlags::on_structure());
    states.insert(3, SupportFlags::on_structure());
    let mut graph = HashMap::new();
    graph.insert(1, vec![]);
    graph.insert(2, vec![1]);
    graph.insert(3, vec![2]);
    let present: HashSet<u32> = [1, 2, 3].into_iter().collect();
    let on_ground: HashSet<u32> = [1].into_iter().collect();
    (states, graph, present, on_ground)
}

#[test]
fn has_support_follows_terrain_ground_and_supporters() {
    let (mut states, graph, present, on_ground) = tower();
    assert!(has_support(1, &states, &graph, &present, &on_ground));
    assert!(has_support(2, &states, &graph, &present, &on_ground));
    assert!(!has_support(4, &states, &graph, &present, &on_ground));

    states.insert(1, SupportFlags::loose());
    assert!(!has_support(1, &states, &graph, &present, &on_ground));
    assert!(!has_support(2, &states, &graph, &present, &on_ground));
}

#[test]
fn collapse_cascades_up_the_tower() {
    let (mut states, graph, present, on_ground) = tower();
    states.insert(1, SupportFlags::loose());

    let lost = cascade_support_check(2, &mut states, &graph, &present, &on_ground);
    assert_eq!(lost, vec![2, 3]);
    assert_eq!(states[&2], SupportFlags::loose());
    assert_eq!(states[&3], SupportFlags::loose());
    assert!(states[&3].is_falling());
    assert_eq!(states[&1], SupportFlags::loose());
}

#[test]
fn supported_block_stays_and_nothing_cascades() {
    let (mut states, graph, present, on_ground) = tower();
    let lost = cascade_support_check(3, &mut states, &graph, &present, &on_ground);
    assert!(lost.is_empty());
    assert_eq!(states[&3], SupportFlags::on_structure());
    assert_eq!(states[&1], SupportFlags::on_terrain());
}

#[test]
fn block_on_two_supporters_survives_losing_one() {
    let (mut states, mut graph, mut present, on_ground) = tower();
    // Block 4 rests on 2 and on 5; 5 stands on the ground.
    states.insert(4, SupportFlags::on_structure());
    states.insert(5, SupportFlags::on_terrain());
    graph.insert(4, vec![2, 5]);
    graph.insert(5, vec![]);
    present.insert(4);
    present.insert(5);
    states.insert(1, SupportFlags::loose());

    let mut lost = cascade_support_check(2, &mut states, &graph, &present, &on_ground);
    assert_eq!(lost[0], 2);
    lost.sort();
    assert_eq!(lost, vec![2, 3]);
    assert!(states[&4].structurally_supported);
    assert!(!states[&4].is_loose);
}

#[test]
fn placed_block_gains_support_when_checked() {
    let (mut states, mut graph, mut present, on_ground) = tower();
    states.insert(6, SupportFlags::placed());
    graph.insert(6, vec![3]);
    present.insert(6);
    assert!(states[&6].is_falling());

    let lost = cascade_support_check(6, &mut states, &graph, &present, &on_ground);
    assert!(lost.is_empty());
    assert!(states[&6].structurally_supported);
    assert!(!states[&6].grounded);
}

#[test]
fn removed_block_comes_loose_even_when_anchored() {
    let (mut states, graph, mut present, on_ground) = tower();
    present.remove(&1);
    let lost = cascade_support_check(1, &mut states, &graph, &present, &on_ground);
    assert_eq!(lost, vec![1, 2, 3]);
}

#[test]
fn test_cascade_brings_down_block_resting_only_on_lost_block() {
    let mut states = HashMap::new();
    states.insert(1, SupportFlags::on_structure());
    states.insert(2, SupportFlags::on_structure());
    let mut graph = HashMap::new();
    graph.insert(2, vec![1]);
    let present: HashSet<u32> = [1, 2].into_iter().collect();
    let on_ground: HashSet<u32> = HashSet::new();
    let lost = cascade_support_check(1, &mut states, &graph, &present, &on_ground);
    assert_eq!(lost, vec![1, 2]);
    assert!(states[&1].is_loose);
    assert!(states[&2].is_loose);
}
