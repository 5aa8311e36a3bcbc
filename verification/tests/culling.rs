use battle_tok_render::culling::{
    TileBuffer, TileBufferHeader, TileData, MAX_ENTITIES_PER_TILE, TILE_SIZE, TOTAL_TILES_1080P,
};

#[test]
fn test_tile_data_size() {
    assert_eq!(std::mem::size_of::<TileData>(), 136);
}

#[test]
fn test_tile_buffer_header_size() {
    assert_eq!(std::mem::size_of::<TileBufferHeader>(), 16);
}

#[test]
fn test_header_for_1080p() {
    let header = TileBufferHeader::for_1080p();
    assert_eq!(header.tiles_x, 120);
    assert_eq!(header.tiles_y, 68);
    assert_eq!(header.tile_size, 16);
    assert_eq!(header.total_tiles, 8160);
}

#[test]
fn test_tile_buffer_size_1080p() {
    let buffer = TileBuffer::for_1080p();
    let expected_size = 16 + 8160 * 136;
    assert_eq!(buffer.gpu_buffer_size(), expected_size);
    assert!(buffer.gpu_buffer_size() >= 1_000_000);
    assert!(buffer.gpu_buffer_size() <= 1_200_000);
}

#[test]
fn test_tile_add_entity() {
    let mut tile = TileData::new();
    assert!(tile.is_empty());

    for i in 0..MAX_ENTITIES_PER_TILE {
        assert!(tile.add_entity(i as u32));
    }
    assert_eq!(tile.len(), MAX_ENTITIES_PER_TILE);

    assert!(!tile.add_entity(100));
}

#[test]
fn test_tile_index_calculation() {
    let buffer = TileBuffer::for_1080p();
    assert_eq!(buffer.get_tile_index(0, 0), Some(0));
    assert_eq!(buffer.get_tile_index(16, 0), Some(1));
    assert_eq!(buffer.get_tile_index(0, 16), Some(120));
    assert_eq!(buffer.get_tile_index(1919, 1079), Some(8159));
    assert_eq!(buffer.get_tile_index(1920, 0), None);
    assert_eq!(buffer.get_tile_index(0, 1088), None);
}

#[test]
fn test_entity_indices_128_bytes() {
    assert_eq!(MAX_ENTITIES_PER_TILE * std::mem::size_of::<u32>(), 128);
}

#[test]
fn header_rounds_partial_tiles_up() {
    let header = TileBufferHeader::for_resolution(17, 1);
    assert_eq!(header.tiles_x, 2);
    assert_eq!(header.tiles_y, 1);
    assert_eq!(header.total_tiles, 2);
    assert_eq!(header.tile_size, TILE_SIZE);
    let empty = TileBufferHeader::for_resolution(0, 0);
    assert_eq!(empty.total_tiles, 0);
    assert_eq!(TileBufferHeader::default().total_tiles, TOTAL_TILES_1080P);
}

#[test]
fn tile_entities_come_back_in_insertion_order() {
    let mut tile = TileData::default();
    assert!(tile.add_entity(7));
    assert!(tile.add_entity(3));
    assert!(tile.add_entity(9));
    assert_eq!(tile.entity_iter(), vec![7, 3, 9]);
    tile.clear();
    assert!(tile.is_empty());
    assert_eq!(tile.entity_iter(), Vec::<u32>::new());
    // clearing keeps the stored indices; only the count is reset
    assert_eq!(tile.entity_indices[0], 7);
}

#[test]
fn add_entity_to_tiles_covers_the_rectangle() {
    let mut buffer = TileBuffer::for_resolution(64, 64); // 4 x 4 tiles
    // pixels [10, 40) x [0, 20) reach tile columns 0..3 and rows 0..2
    let count = buffer.add_entity_to_tiles(5, 10, 0, 40, 20);
    assert_eq!(count, 6);
    for y in 0..4u32 {
        for x in 0..4u32 {
            let tile = buffer.get_tile(x * 16, y * 16).unwrap();
            let inside = x < 3 && y < 2;
            assert_eq!(tile.len(), if inside { 1 } else { 0 });
            if inside {
                assert_eq!(tile.entity_iter(), vec![5]);
            }
        }
    }
}

#[test]
fn add_entity_to_tiles_is_clipped_to_the_grid() {
    let mut buffer = TileBuffer::for_resolution(32, 32); // 2 x 2 tiles
    let count = buffer.add_entity_to_tiles(1, 0, 0, 1000, 1000);
    assert_eq!(count, 4);
    // a rectangle entirely past the grid touches nothing
    assert_eq!(buffer.add_entity_to_tiles(2, 100, 100, 200, 200), 0);
    // an empty rectangle (max below min) touches nothing
    assert_eq!(buffer.add_entity_to_tiles(3, 20, 20, 0, 0), 0);
}

#[test]
fn add_entity_to_tiles_skips_full_tiles() {
    let mut buffer = TileBuffer::for_resolution(32, 16); // 2 x 1 tiles
    for i in 0..MAX_ENTITIES_PER_TILE as u32 {
        assert!(buffer.get_tile_mut(0, 0).unwrap().add_entity(i));
    }
    let count = buffer.add_entity_to_tiles(99, 0, 0, 32, 16);
    assert_eq!(count, 1);
    assert_eq!(buffer.get_tile(0, 0).unwrap().len(), MAX_ENTITIES_PER_TILE);
    assert_eq!(buffer.get_tile(16, 0).unwrap().entity_iter(), vec![99]);
}

#[test]
fn clear_empties_every_tile() {
    let mut buffer = TileBuffer::for_resolution(48, 48);
    buffer.add_entity_to_tiles(4, 0, 0, 48, 48);
    buffer.clear();
    for tile in &buffer.tiles {
        assert!(tile.is_empty());
    }
    assert!(buffer.get_tile(100, 0).is_none());
    assert!(buffer.get_tile_mut(0, 100).is_none());
}

#[test]
fn test_add_entity_refused_past_capacity() {
    let mut tile = TileData::new();
    tile.entity_count = 40;
    assert!(!tile.add_entity(7));
    assert_eq!(tile.entity_count, 40);
    assert_eq!(tile.entity_indices, [0u32; 32]);
}

#[test]
fn test_tile_appends_read_back_in_order_capped() {
    let mut tile = TileData::new();
    let mut accepted = 0;
    for e in 100..140u32 {
        if tile.add_entity(e) {
            accepted += 1;
        }
    }
    assert_eq!(accepted, 32);
    let expected: Vec<u32> = (100..132).collect();
    assert_eq!(tile.entity_iter(), expected);
    assert_eq!(tile.entity_iter().len(), tile.len());
    assert!(!tile.is_empty());
}

#[test]
fn test_tile_lookup_ignores_stale_total() {
    let mut buffer = TileBuffer::for_resolution(64, 32);
    buffer.header.total_tiles = 0;
    buffer.header.tile_size = 8;
    assert_eq!(buffer.get_tile_index(17, 20), Some(5));
    assert_eq!(buffer.get_tile_index(64, 0), None);
    assert_eq!(buffer.add_entity_to_tiles(3, 0, 0, 20, 10), 2);
    assert_eq!(buffer.get_tile(17, 5).map(|t| t.len()), Some(1));
    assert_eq!(buffer.get_tile(40, 5).map(|t| t.len()), Some(0));
}
