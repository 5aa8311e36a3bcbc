use battle_tok_render::building_blocks::{BlockEntry, BuildingBlockManager};

fn entry(id: u32, block: u32) -> BlockEntry<u32> {
    BlockEntry { id, merged_group_id: None, block }
}

#[test]
fn test_block_manager_add_get_remove() {
    let mut manager: BuildingBlockManager<u32> = BuildingBlockManager::new();
    assert!(manager.is_empty());
    assert!(!manager.needs_mesh_update());
    assert_eq!(manager.add_block(entry(7, 70)), 7);
    assert_eq!(manager.add_block(entry(8, 80)), 8);
    assert_eq!(manager.len(), 2);
    assert!(manager.needs_mesh_update());
    assert_eq!(manager.get_block(8).map(|e| e.block), Some(80));
    assert!(manager.get_block(9).is_none());

    manager.clear_dirty();
    assert!(!manager.needs_mesh_update());
    assert!(manager.remove_block(9).is_none());
    assert!(!manager.needs_mesh_update());

    let removed = manager.remove_block(7).unwrap();
    assert_eq!((removed.id, removed.block), (7, 70));
    assert!(manager.needs_mesh_update());
    assert_eq!(manager.len(), 1);
    assert_eq!(manager.blocks()[0].id, 8);
}

#[test]
fn test_block_manager_first_block_with_an_id_wins() {
    let mut manager: BuildingBlockManager<u32> = BuildingBlockManager::default();
    manager.add_block(entry(5, 1));
    manager.add_block(entry(5, 2));
    assert_eq!(manager.get_block(5).map(|e| e.block), Some(1));
    if let Some(block) = manager.get_block_mut(5) {
        *block = 10;
    }
    assert_eq!(manager.blocks()[0].block, 10);
    assert_eq!(manager.blocks()[1].block, 2);
    manager.remove_block(5);
    assert_eq!(manager.get_block(5).map(|e| e.block), Some(2));
}

#[test]
fn test_block_manager_merge_groups() {
    let mut manager: BuildingBlockManager<u32> = BuildingBlockManager::new();
    manager.add_block(entry(1, 0));
    manager.add_block(entry(2, 0));
    manager.add_block(entry(3, 0));
    manager.clear_dirty();
    assert_eq!(manager.create_merge_group(&[1, 3, 42]), 0);
    assert!(manager.needs_mesh_update());
    assert_eq!(manager.get_block(1).unwrap().merged_group_id, Some(0));
    assert_eq!(manager.get_block(2).unwrap().merged_group_id, None);
    assert_eq!(manager.get_block(3).unwrap().merged_group_id, Some(0));
    assert_eq!(manager.create_merge_group(&[3]), 1);
    assert_eq!(manager.get_block(3).unwrap().merged_group_id, Some(1));
    assert_eq!(manager.get_block(1).unwrap().merged_group_id, Some(0));
    assert_eq!(manager.len(), 3);
}
