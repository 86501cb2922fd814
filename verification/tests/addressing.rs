use tilegrid::config::MapConfig;
use tilegrid::coords::{ChunkCoord, TilePos};
use tilegrid::store::TileMap;
use tilegrid::GridError;

fn small_config() -> MapConfig {
    MapConfig {
        map_width_chunks: 2,
        map_height_chunks: 2,
        chunk_width: 2,
        chunk_height: 2,
        tile_pixel_width: 16,
        tile_pixel_height: 16,
        atlas_pixel_width: 64,
        atlas_pixel_height: 16,
        layer_id: 0,
        culling_enabled: false,
    }
}

#[test]
fn chunk_addressing_round_trips() {
    let cfg = small_config();
    for x in 0..4u32 {
        for y in 0..4u32 {
            let pos = TilePos::new(x, y);
            let chunk = cfg.chunk_for(pos);
            let (lx, ly) = cfg.local_of(pos);
            assert_eq!(chunk.x * cfg.chunk_width + lx, x);
            assert_eq!(chunk.y * cfg.chunk_height + ly, y);
            assert!(chunk.x < cfg.map_width_chunks);
            assert!(chunk.y < cfg.map_height_chunks);
            assert!(lx < cfg.chunk_width);
            assert!(ly < cfg.chunk_height);
        }
    }
}

#[test]
fn chunk_for_picks_owning_chunk() {
    let cfg = small_config();
    assert_eq!(cfg.chunk_for(TilePos::new(0, 0)), ChunkCoord::new(0, 0));
    assert_eq!(cfg.chunk_for(TilePos::new(1, 1)), ChunkCoord::new(0, 0));
    assert_eq!(cfg.chunk_for(TilePos::new(2, 0)), ChunkCoord::new(1, 0));
    assert_eq!(cfg.chunk_for(TilePos::new(3, 2)), ChunkCoord::new(1, 1));
    assert_eq!(cfg.local_of(TilePos::new(3, 2)), (1, 0));
}

#[test]
fn map_extent_helpers() {
    let cfg = small_config();
    assert!(cfg.validate());
    assert_eq!(cfg.map_width_tiles(), 4);
    assert_eq!(cfg.map_height_tiles(), 4);
    assert_eq!(cfg.atlas_tile_count(), 4);
}

#[test]
fn benchmark_scale_config_is_valid() {
    let cfg = MapConfig {
        map_width_chunks: 16,
        map_height_chunks: 16,
        chunk_width: 64,
        chunk_height: 64,
        tile_pixel_width: 16,
        tile_pixel_height: 16,
        atlas_pixel_width: 64,
        atlas_pixel_height: 16,
        layer_id: 0,
        culling_enabled: false,
    };
    assert!(cfg.validate());
    assert_eq!(cfg.map_width_tiles(), 1024);
    assert_eq!(cfg.map_height_tiles(), 1024);
}

#[test]
fn zero_chunk_dims_rejected() {
    let mut cfg = small_config();
    cfg.chunk_width = 0;
    assert!(!cfg.validate());
    match TileMap::new(cfg) {
        Err(GridError::InvalidConfiguration) => {}
        _ => panic!("construction must fail with InvalidConfiguration"),
    }
}

#[test]
fn zero_map_dims_rejected() {
    let mut cfg = small_config();
    cfg.map_height_chunks = 0;
    match TileMap::new(cfg) {
        Err(GridError::InvalidConfiguration) => {}
        _ => panic!("construction must fail with InvalidConfiguration"),
    }
}

#[test]
fn empty_atlas_rejected() {
    let mut cfg = small_config();
    // The atlas image is narrower than one tile: zero usable indices.
    cfg.atlas_pixel_width = 8;
    assert!(!cfg.validate());
    match TileMap::new(cfg) {
        Err(GridError::InvalidConfiguration) => {}
        _ => panic!("construction must fail with InvalidConfiguration"),
    }
}

#[test]
fn oversized_grid_rejected() {
    let mut cfg = small_config();
    cfg.map_width_chunks = u32::MAX;
    cfg.chunk_width = 2;
    assert!(!cfg.validate());
}
