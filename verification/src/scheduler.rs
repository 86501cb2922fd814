//! The update scheduler: the per-tick full-grid sweep.
//!
//! Each tick rewrites every tile's texture index from the row-based formula
//! `(tick + row) mod atlas_tile_count`, producing diagonal bands of texture
//! index that advance by one band per tick. The sweep is unconditional: it
//! rewrites every cell every tick regardless of the prior value, and leaves
//! every chunk of the grid dirty.

use vstd::prelude::*;

use vstd::arithmetic::div_mod::{
    lemma_add_mod_noop, lemma_fundamental_div_mod_converse, lemma_mod_bound,
};
use vstd::arithmetic::mul::lemma_mul_strict_inequality;

use crate::config::lemma_addressing_xy;
use crate::coords::TilePos;
use crate::store::{Tile, TileMap};
use crate::GridError;

verus! {

/// The texture index the sweep assigns to every tile of row `y` at tick
/// `tick`, with an atlas of `atlas` tiles.
pub open spec fn sweep_index(tick: int, y: int, atlas: int) -> int {
    (tick + y) % atlas
}

/// Advances a discrete tick counter and drives the full-grid sweep.
///
/// Uninitialized at tick 0, before any sweep has run; running from tick 1
/// on, with no terminal state.
pub struct UpdateScheduler {
    /// Number of completed sweeps; zero before the first.
    pub tick: u64,
}

impl UpdateScheduler {
    /// A scheduler that has not yet run a sweep.
    pub fn new() -> (r: UpdateScheduler)
        ensures
            r.tick == 0,
    {
        UpdateScheduler { tick: 0 }
    }

    /// Number of completed sweeps.
    pub fn current_tick(&self) -> (r: u64)
        ensures
            r == self.tick,
    {
        self.tick
    }

    /// Advances the tick by one and rewrites every tile of the grid: each
    /// tile of row `y` receives texture index `(tick + y) mod
    /// atlas_tile_count` and cleared flags, and every chunk ends up dirty.
    ///
    /// The sweep bounds are derived from the map's own configuration, so no
    /// write can fall out of bounds; an error from the store would be a
    /// broken invariant and is propagated unchanged.
    pub fn tick(&mut self, map: &mut TileMap) -> (r: Result<(), GridError>)
        requires
            old(map).wf(),
            old(self).tick < u64::MAX,
        ensures
            final(self).tick == old(self).tick + 1,
            final(map).wf(),
            final(map).config == old(map).config,
            r == Ok::<(), GridError>(()),
            forall|x: int, y: int|
                old(map).config.in_bounds_xy(x, y) ==> #[trigger] final(map).spec_tile_at(x, y)
                    == Some(
                    (Tile {
                        texture_index: sweep_index(
                            old(self).tick + 1,
                            y,
                            old(map).config.atlas_tiles(),
                        ) as u16,
                        flags: 0,
                    }),
                ),
            forall|cx: int, cy: int|
                old(map).config.chunk_in_range(cx, cy) ==> #[trigger] final(map).spec_dirty(
                    cx,
                    cy,
                ),
    {
        self.tick = self.tick + 1;
        let tick: u64 = self.tick;
        let ghost cfg = map.config;
        let atlas: u32 = map.config.atlas_tile_count();
        let w: u32 = map.config.map_width_tiles();
        let h: u32 = map.config.map_height_tiles();
        let ghost m0 = *map;
        let mut y: u32 = 0;
        while y < h
            invariant
                map.wf(),
                map.config == cfg,
                cfg == m0.config,
                m0.wf(),
                w as int == cfg.width_tiles(),
                h as int == cfg.height_tiles(),
                atlas as int == cfg.atlas_tiles(),
                0 < atlas <= 0x10000,
                y <= h,
                forall|xx: int, yy: int|
                    cfg.in_bounds_xy(xx, yy) && yy < y as int ==> #[trigger] map.spec_tile_at(
                        xx,
                        yy,
                    ) == Some(
                        (Tile {
                            texture_index: sweep_index(tick as int, yy, cfg.atlas_tiles()) as u16,
                            flags: 0,
                        }),
                    ),
                forall|cx: int, cy: int|
                    cfg.chunk_in_range(cx, cy) ==> (#[trigger] map.spec_dirty(cx, cy) <==> (
                    m0.spec_dirty(cx, cy) || cy * (cfg.chunk_height as int) < y as int)),
            decreases h - y,
        {
            let t_mod: u64 = tick % (atlas as u64);
            let y_mod: u64 = (y % atlas) as u64;
            let sprite64: u64 = (t_mod + y_mod) % (atlas as u64);
            let sprite: u16 = sprite64 as u16;
            proof {
                lemma_add_mod_noop(tick as int, y as int, atlas as int);
                lemma_mod_bound(tick as int + y as int, atlas as int);
                assert(sprite as int == sweep_index(tick as int, y as int, cfg.atlas_tiles()));
            }
            let ghost row0 = *map;
            let mut x: u32 = 0;
            while x < w
                invariant
                    map.wf(),
                    map.config == cfg,
                    cfg == m0.config,
                    w as int == cfg.width_tiles(),
                    h as int == cfg.height_tiles(),
                    atlas as int == cfg.atlas_tiles(),
                    0 < atlas <= 0x10000,
                    x <= w,
                    y < h,
                    sprite as int == sweep_index(tick as int, y as int, cfg.atlas_tiles()),
                    forall|xx: int, yy: int|
                        cfg.in_bounds_xy(xx, yy) && yy < y as int ==> #[trigger] map.spec_tile_at(
                            xx,
                            yy,
                        ) == Some(
                            (Tile {
                                texture_index: sweep_index(
                                    tick as int,
                                    yy,
                                    cfg.atlas_tiles(),
                                ) as u16,
                                flags: 0,
                            }),
                        ),
                    forall|xx: int|
                        0 <= xx < x as int ==> #[trigger] map.spec_tile_at(xx, y as int) == Some(
                            (Tile { texture_index: sprite, flags: 0 }),
                        ),
                    forall|cx: int, cy: int|
                        cfg.chunk_in_range(cx, cy) ==> (#[trigger] map.spec_dirty(cx, cy) <==> (
                        m0.spec_dirty(cx, cy) || cy * (cfg.chunk_height as int) < y as int || (cy
                            == cfg.chunk_y(y as int) && cx * (cfg.chunk_width as int)
                            < x as int))),
                decreases w - x,
            {
                let ghost before = *map;
                let pos = TilePos { x, y };
                match map.set_tile(pos, Tile { texture_index: sprite, flags: 0 }) {
                    Ok(()) => {},
                    Err(e) => {
                        return Err(e);
                    },
                }
                proof {
                    lemma_addressing_xy(cfg, x as int, y as int);
                    assert forall|cx: int, cy: int| cfg.chunk_in_range(cx, cy) implies (
                    #[trigger] map.spec_dirty(cx, cy) <==> (m0.spec_dirty(cx, cy) || cy * (
                    cfg.chunk_height as int) < y as int || (cy == cfg.chunk_y(y as int) && cx * (
                    cfg.chunk_width as int) < x as int + 1))) by {
                        assert(before.spec_dirty(cx, cy) <==> (m0.spec_dirty(cx, cy) || cy * (
                        cfg.chunk_height as int) < y as int || (cy == cfg.chunk_y(y as int) && cx
                            * (cfg.chunk_width as int) < x as int)));
                        if cy == cfg.chunk_y(y as int) && cx * (cfg.chunk_width as int) == x as int
                            && !before.spec_dirty(cx, cy) {
                            lemma_fundamental_div_mod_converse(
                                x as int,
                                cfg.chunk_width as int,
                                cx,
                                0,
                            );
                            assert(cx == cfg.chunk_x(x as int));
                        }
                    }
                }
                x = x + 1;
            }
            proof {
                assert forall|cx: int, cy: int| cfg.chunk_in_range(cx, cy) implies (
                #[trigger] map.spec_dirty(cx, cy) <==> (m0.spec_dirty(cx, cy) || cy * (
                cfg.chunk_height as int) < y as int + 1)) by {
                    if cx * (cfg.chunk_width as int) < w as int {
                    } else {
                        lemma_mul_strict_inequality(
                            cx,
                            cfg.map_width_chunks as int,
                            cfg.chunk_width as int,
                        );
                    }
                    if cy == cfg.chunk_y(y as int) {
                        lemma_addressing_xy(cfg, 0, y as int);
                        assert(cy * (cfg.chunk_height as int) <= y as int);
                    }
                    if cy * (cfg.chunk_height as int) == y as int {
                        lemma_fundamental_div_mod_converse(
                            y as int,
                            cfg.chunk_height as int,
                            cy,
                            0,
                        );
                        assert(cy == cfg.chunk_y(y as int));
                    }
                }
            }
            y = y + 1;
        }
        proof {
            assert forall|cx: int, cy: int| cfg.chunk_in_range(cx, cy) implies #[trigger] map
                .spec_dirty(cx, cy) by {
                lemma_mul_strict_inequality(
                    cy,
                    cfg.map_height_chunks as int,
                    cfg.chunk_height as int,
                );
            }
        }
        Ok(())
    }
}

} // verus!

