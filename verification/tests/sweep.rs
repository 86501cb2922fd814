use tilegrid::config::MapConfig;
use tilegrid::coords::{ChunkCoord, TilePos};
use tilegrid::scheduler::UpdateScheduler;
use tilegrid::store::{Tile, TileMap};

fn small_config() -> MapConfig {
    MapConfig {
        map_width_chunks: 2,
        map_height_chunks: 2,
        chunk_width: 2,
        chunk_height: 2,
        tile_pixel_width: 16,
        tile_pixel_height: 16,
        atlas_pixel_width: 64,
        atlas_pixel_height: 16,
        layer_id: 0,
        culling_enabled: false,
    }
}

fn small_map() -> TileMap {
    TileMap::new(small_config()).expect("valid configuration")
}

fn assert_row(map: &TileMap, y: u32, texture_index: u16) {
    for x in 0..4u32 {
        assert_eq!(
            map.get_tile(TilePos::new(x, y)),
            Ok(Some(Tile::new(texture_index))),
            "row {} column {}",
            y,
            x
        );
    }
}

#[test]
fn first_sweep_lays_diagonal_bands() {
    // 4x4-tile map, 4-entry atlas, first sweep: row y holds (1 + y) mod 4.
    let mut map = small_map();
    let mut scheduler = UpdateScheduler::new();
    assert_eq!(scheduler.current_tick(), 0);
    assert_eq!(scheduler.tick(&mut map), Ok(()));
    assert_eq!(scheduler.current_tick(), 1);
    assert_row(&map, 0, 1);
    assert_row(&map, 1, 2);
    assert_row(&map, 2, 3);
    assert_row(&map, 3, 0);
}

#[test]
fn second_sweep_shifts_bands_by_one() {
    let mut map = small_map();
    let mut scheduler = UpdateScheduler::new();
    assert_eq!(scheduler.tick(&mut map), Ok(()));
    assert_eq!(scheduler.tick(&mut map), Ok(()));
    assert_eq!(scheduler.current_tick(), 2);
    assert_row(&map, 0, 2);
    assert_row(&map, 1, 3);
    assert_row(&map, 2, 0);
    assert_row(&map, 3, 1);
}

#[test]
fn sweep_overwrites_prior_contents() {
    let mut map = small_map();
    map.set_tile(TilePos::new(0, 0), Tile { texture_index: 99, flags: 3 })
        .expect("in bounds");
    let mut scheduler = UpdateScheduler::new();
    assert_eq!(scheduler.tick(&mut map), Ok(()));
    assert_eq!(map.get_tile(TilePos::new(0, 0)), Ok(Some(Tile::new(1))));
}

#[test]
fn sweep_dirties_every_chunk_exactly_once() {
    let mut map = small_map();
    let mut scheduler = UpdateScheduler::new();
    assert_eq!(scheduler.tick(&mut map), Ok(()));
    let dirty = map.dirty_chunks();
    assert_eq!(dirty.len(), 4);
    for cx in 0..2u32 {
        for cy in 0..2u32 {
            let coord = ChunkCoord::new(cx, cy);
            assert_eq!(
                dirty.iter().filter(|c| **c == coord).count(),
                1,
                "chunk {:?} must be drained exactly once",
                coord
            );
        }
    }
    // The drain is deterministic: row-major chunk order.
    assert_eq!(
        dirty,
        vec![
            ChunkCoord::new(0, 0),
            ChunkCoord::new(1, 0),
            ChunkCoord::new(0, 1),
            ChunkCoord::new(1, 1),
        ]
    );
    // Drained: a second query with no intervening writes yields nothing.
    assert!(map.dirty_chunks().is_empty());
    // A further sweep dirties everything again.
    assert_eq!(scheduler.tick(&mut map), Ok(()));
    assert_eq!(map.dirty_chunks().len(), 4);
}

#[test]
fn sweep_bands_wrap_with_tall_atlas() {
    // One 3x1 chunk of 3x2 tiles against a 2-entry atlas.
    let cfg = MapConfig {
        map_width_chunks: 1,
        map_height_chunks: 1,
        chunk_width: 3,
        chunk_height: 2,
        tile_pixel_width: 16,
        tile_pixel_height: 16,
        atlas_pixel_width: 32,
        atlas_pixel_height: 16,
        layer_id: 7,
        culling_enabled: true,
    };
    let mut map = TileMap::new(cfg).expect("valid configuration");
    let mut scheduler = UpdateScheduler::new();
    assert_eq!(scheduler.tick(&mut map), Ok(()));
    for x in 0..3u32 {
        assert_eq!(map.get_tile(TilePos::new(x, 0)), Ok(Some(Tile::new(1))));
        assert_eq!(map.get_tile(TilePos::new(x, 1)), Ok(Some(Tile::new(0))));
    }
}
