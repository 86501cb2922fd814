use tilegrid::config::MapConfig;
use tilegrid::coords::{ChunkCoord, TilePos};
use tilegrid::store::{Tile, TileMap};
use tilegrid::GridError;

fn small_config() -> MapConfig {
    MapConfig {
        map_width_chunks: 2,
        map_height_chunks: 2,
        chunk_width: 2,
        chunk_height: 2,
        tile_pixel_width: 16,
        tile_pixel_height: 16,
        atlas_pixel_width: 64,
        atlas_pixel_height: 16,
        layer_id: 0,
        culling_enabled: false,
    }
}

fn small_map() -> TileMap {
    TileMap::new(small_config()).expect("valid configuration")
}

#[test]
fn read_after_write_returns_latest() {
    let mut map = small_map();
    let pos = TilePos::new(1, 2);
    let tile = Tile::new(5);
    assert_eq!(map.set_tile(pos, tile), Ok(()));
    assert_eq!(map.get_tile(pos), Ok(Some(tile)));
}

#[test]
fn unset_slot_reads_none() {
    let map = small_map();
    assert_eq!(map.get_tile(TilePos::new(0, 0)), Ok(None));
    assert_eq!(map.get_tile(TilePos::new(3, 3)), Ok(None));
}

#[test]
fn upsert_overwrites_in_place() {
    let mut map = small_map();
    let pos = TilePos::new(2, 1);
    assert_eq!(map.set_tile(pos, Tile::new(1)), Ok(()));
    assert_eq!(map.set_tile(pos, Tile::new(9)), Ok(()));
    assert_eq!(map.get_tile(pos), Ok(Some(Tile::new(9))));
    // No other slot was disturbed by the double write.
    for x in 0..4u32 {
        for y in 0..4u32 {
            if (x, y) != (2, 1) {
                assert_eq!(map.get_tile(TilePos::new(x, y)), Ok(None));
            }
        }
    }
}

#[test]
fn bulk_insert_matches_sequential_writes() {
    let entries = vec![
        (TilePos::new(0, 0), Tile::new(1)),
        (TilePos::new(3, 1), Tile::new(2)),
        (TilePos::new(1, 3), Tile::new(3)),
        (TilePos::new(2, 2), Tile::new(0)),
    ];
    let mut bulk = small_map();
    assert_eq!(bulk.bulk_insert(&entries), Ok(()));
    let mut sequential = small_map();
    for (pos, tile) in entries.iter() {
        assert_eq!(sequential.set_tile(*pos, *tile), Ok(()));
    }
    for x in 0..4u32 {
        for y in 0..4u32 {
            let pos = TilePos::new(x, y);
            assert_eq!(bulk.get_tile(pos), sequential.get_tile(pos));
        }
    }
}

#[test]
fn bulk_insert_later_entry_wins() {
    let entries = vec![
        (TilePos::new(1, 1), Tile::new(4)),
        (TilePos::new(1, 1), Tile::new(7)),
    ];
    let mut map = small_map();
    assert_eq!(map.bulk_insert(&entries), Ok(()));
    assert_eq!(map.get_tile(TilePos::new(1, 1)), Ok(Some(Tile::new(7))));
}

#[test]
fn out_of_bounds_get_fails() {
    let map = small_map();
    let pos = TilePos::new(4, 0);
    assert_eq!(map.get_tile(pos), Err(GridError::OutOfBounds(pos)));
    let pos = TilePos::new(0, 4);
    assert_eq!(map.get_tile(pos), Err(GridError::OutOfBounds(pos)));
}

#[test]
fn out_of_bounds_set_fails_without_mutation() {
    let mut map = small_map();
    let pos = TilePos::new(7, 7);
    assert_eq!(map.set_tile(pos, Tile::new(1)), Err(GridError::OutOfBounds(pos)));
    for x in 0..4u32 {
        for y in 0..4u32 {
            assert_eq!(map.get_tile(TilePos::new(x, y)), Ok(None));
        }
    }
    assert!(map.dirty_chunks().is_empty());
}

#[test]
fn bulk_insert_fails_fast_keeping_prefix() {
    let bad = TilePos::new(9, 9);
    let entries = vec![
        (TilePos::new(0, 0), Tile::new(1)),
        (TilePos::new(1, 0), Tile::new(2)),
        (bad, Tile::new(3)),
        (TilePos::new(2, 0), Tile::new(4)),
    ];
    let mut map = small_map();
    assert_eq!(map.bulk_insert(&entries), Err(GridError::OutOfBounds(bad)));
    // Writes before the failing entry remain committed, the rest never ran.
    assert_eq!(map.get_tile(TilePos::new(0, 0)), Ok(Some(Tile::new(1))));
    assert_eq!(map.get_tile(TilePos::new(1, 0)), Ok(Some(Tile::new(2))));
    assert_eq!(map.get_tile(TilePos::new(2, 0)), Ok(None));
}

#[test]
fn write_marks_only_owning_chunk_dirty() {
    let mut map = small_map();
    assert_eq!(map.set_tile(TilePos::new(3, 3), Tile::new(2)), Ok(()));
    let dirty = map.dirty_chunks();
    assert_eq!(dirty, vec![ChunkCoord::new(1, 1)]);
    // Draining cleared the flag; nothing new was written since.
    assert!(map.dirty_chunks().is_empty());
}

#[test]
fn ensure_chunk_changes_no_contents() {
    let mut map = small_map();
    map.ensure_chunk(ChunkCoord::new(0, 1));
    for x in 0..4u32 {
        for y in 0..4u32 {
            assert_eq!(map.get_tile(TilePos::new(x, y)), Ok(None));
        }
    }
    assert!(map.dirty_chunks().is_empty());
}
