//! The chunked tile store: tile records, chunks, and the addressable grid.
//!
//! A `TileMap` partitions the logical grid into fixed-size chunks, each a
//! dense buffer of optional tile slots allocated on first touch. Reads and
//! writes address a tile in O(1) through the row-major chunk and local
//! indices; every successful write marks exactly the owning chunk dirty, and
//! `dirty_chunks` drains the dirty set for a downstream render consumer.

use vstd::prelude::*;

use vstd::arithmetic::mul::lemma_mul_is_commutative;
use crate::config::{
    lemma_addressing_injective_xy, lemma_addressing_xy, lemma_chunk_index_bound,
    lemma_axis_roundtrip, lemma_pair_index_injective, MapConfig,
};
use crate::coords::{ChunkCoord, TilePos};
use crate::GridError;

verus! {

broadcast use vstd::map::group_map_axioms, vstd::set::group_set_axioms;

/// The atomic grid cell record. Only `texture_index` is rewritten by the
/// update sweep; `flags` carries optional per-tile render flags.
#[derive(Clone, Copy, Debug, PartialEq, Eq, Structural)]
pub struct Tile {
    /// Index into the texture atlas; valid values lie below the atlas tile
    /// count.
    pub texture_index: u16,
    /// Optional per-tile flags; zero when unused.
    pub flags: u16,
}

impl Tile {
    /// A tile showing `texture_index`, with no flags set.
    pub fn new(texture_index: u16) -> (r: Tile)
        ensures
            r == (Tile { texture_index, flags: 0 }),
    {
        Tile { texture_index, flags: 0 }
    }
}

/// A fixed-size rectangular partition of the grid: a dense buffer of tile
/// slots plus the dirty flag that records writes since the last drain.
///
/// The slot buffer is empty until the chunk is first touched; a materialized
/// chunk holds exactly `chunk_area` slots.
#[derive(Debug)]
pub struct Chunk {
    /// Dense row-major slot buffer; empty, or one slot per tile of the
    /// chunk.
    pub tiles: Vec<Option<Tile>>,
    /// Set on any write into this chunk; cleared when the chunk is drained.
    pub dirty: bool,
}

impl Chunk {
    /// A chunk's buffer is either still unallocated or exactly chunk-sized.
    pub open spec fn wf(self, cfg: MapConfig) -> bool {
        self.tiles.len() == 0 || self.tiles.len() == cfg.chunk_area()
    }

    /// Whether the slot buffer has been allocated.
    pub open spec fn materialized(self, cfg: MapConfig) -> bool {
        self.tiles.len() == cfg.chunk_area()
    }

    /// Contents of local slot `li`: an unmaterialized chunk holds nothing.
    pub open spec fn slot(self, li: int) -> Option<Tile> {
        if self.tiles.len() == 0 {
            None
        } else {
            self.tiles[li]
        }
    }
}

/// The full addressable grid: a validated configuration plus the row-major
/// chunk table.
pub struct TileMap {
    /// The validated configuration the map was built from.
    pub config: MapConfig,
    /// Row-major chunk table, one entry per chunk of the grid.
    pub chunks: Vec<Chunk>,
}

impl TileMap {
    /// Structural invariant: the configuration is valid, the chunk table
    /// covers the grid, and every chunk's buffer is unallocated or
    /// chunk-sized.
    pub open spec fn wf(self) -> bool {
        &&& self.config.wf()
        &&& self.chunks.len() == self.config.chunk_count()
        &&& forall|i: int|
            0 <= i < self.chunks.len() ==> (#[trigger] self.chunks[i]).wf(self.config)
    }

    /// The tile currently stored at integer coordinates (x, y), or none if
    /// the slot is unset.
    pub open spec fn spec_tile_at(self, x: int, y: int) -> Option<Tile> {
        self.chunks[self.config.chunk_index_of(x, y)].slot(self.config.local_index_of(x, y))
    }

    /// Abstract store contents: the partial map from in-bounds coordinates
    /// to the tiles recorded there.
    pub open spec fn tiles_view(self) -> Map<(int, int), Tile> {
        Map::new(
            |k: (int, int)|
                self.config.in_bounds_xy(k.0, k.1) && self.spec_tile_at(k.0, k.1) is Some,
            |k: (int, int)| self.spec_tile_at(k.0, k.1)->0,
        )
    }

    /// Whether the chunk at coordinate (cx, cy) is flagged dirty.
    pub open spec fn spec_dirty(self, cx: int, cy: int) -> bool {
        self.chunks[self.config.chunk_index(cx, cy)].dirty
    }

    /// Builds a map from a configuration, validating it first.
    ///
    /// A valid configuration yields a map with every slot unset and no chunk
    /// dirty; an invalid one yields `InvalidConfiguration` and no map.
    pub fn new(config: MapConfig) -> (r: Result<TileMap, GridError>)
        ensures
            config.wf() ==> ({
                &&& r matches Ok(m)
                &&& m.wf()
                &&& m.config == config
                &&& forall|x: int, y: int|
                    config.in_bounds_xy(x, y) ==> (#[trigger] m.spec_tile_at(x, y)) is None
                &&& forall|cx: int, cy: int|
                    config.chunk_in_range(cx, cy) ==> !(#[trigger] m.spec_dirty(cx, cy))
            }),
            !config.wf() ==> r == Err::<TileMap, GridError>(GridError::InvalidConfiguration),
    {
        if !config.validate() {
            return Err(GridError::InvalidConfiguration);
        }
        let n: u32 = config.num_chunks();
        let mut chunks: Vec<Chunk> = Vec::new();
        let mut i: u32 = 0;
        while i < n
            invariant
                i <= n,
                chunks.len() == i as int,
                forall|j: int|
                    0 <= j < i as int ==> (#[trigger] chunks[j]).tiles.len() == 0
                        && !chunks[j].dirty,
            decreases n - i,
        {
            chunks.push(Chunk { tiles: Vec::new(), dirty: false });
            i = i + 1;
        }
        let m = TileMap { config, chunks };
        proof {
            assert forall|x: int, y: int| config.in_bounds_xy(x, y) implies (#[trigger] m.spec_tile_at(
                x,
                y,
            )) is None by {
                lemma_addressing_xy(config, x, y);
            }
            assert forall|cx: int, cy: int| config.chunk_in_range(cx, cy) implies !(
            #[trigger] m.spec_dirty(cx, cy)) by {
                lemma_chunk_index_bound(config, cx, cy);
            }
        }
        Ok(m)
    }

    /// The chunk owning `pos`; a pure function of the configuration.
    pub fn chunk_for(&self, pos: TilePos) -> (r: ChunkCoord)
        requires
            self.wf(),
        ensures
            r.x as int == self.config.chunk_x(pos.x as int),
            r.y as int == self.config.chunk_y(pos.y as int),
    {
        self.config.chunk_for(pos)
    }

    /// Materializes the chunk at an in-range coordinate, zero-initializing
    /// its slot buffer if it does not yet exist. Never fails for in-range
    /// coordinates, and changes neither the stored tiles nor any dirty flag.
    pub fn ensure_chunk(&mut self, coord: ChunkCoord)
        requires
            old(self).wf(),
            old(self).config.chunk_in_range(coord.x as int, coord.y as int),
        ensures
            final(self).wf(),
            final(self).config == old(self).config,
            final(self).chunks[old(self).config.chunk_index(
                coord.x as int,
                coord.y as int,
            )].materialized(old(self).config),
            forall|x: int, y: int|
                old(self).config.in_bounds_xy(x, y) ==> #[trigger] final(self).spec_tile_at(x, y)
                    == old(self).spec_tile_at(x, y),
            forall|cx: int, cy: int|
                old(self).config.chunk_in_range(cx, cy) ==> #[trigger] final(self).spec_dirty(
                    cx,
                    cy,
                ) == old(self).spec_dirty(cx, cy),
    {
        let ghost pre = *self;
        let ci: u32 = self.config.chunk_slot(coord);
        let area: u32 = self.config.slots_per_chunk();
        if self.chunks[ci as usize].tiles.len() == 0 {
            let fresh = empty_slots(area);
            self.chunks[ci as usize].tiles = fresh;
            proof {
                assert forall|x: int, y: int| pre.config.in_bounds_xy(x, y) implies #[trigger] self
                    .spec_tile_at(x, y) == pre.spec_tile_at(x, y) by {
                    lemma_addressing_xy(pre.config, x, y);
                    if pre.config.chunk_index_of(x, y) == ci as int {
                        assert(pre.spec_tile_at(x, y) is None);
                        assert(self.spec_tile_at(x, y) is None);
                    }
                }
                assert forall|cx: int, cy: int| pre.config.chunk_in_range(cx, cy) implies
                    #[trigger] self.spec_dirty(cx, cy) == pre.spec_dirty(cx, cy) by {
                    lemma_chunk_index_bound(pre.config, cx, cy);
                }
            }
        }
    }

    /// Upserts `tile` at `pos`: overwrites the slot in place if a tile is
    /// already there, creates it otherwise, and marks exactly the owning
    /// chunk dirty. An out-of-bounds position is reported and the store is
    /// left untouched.
    pub fn set_tile(&mut self, pos: TilePos, tile: Tile) -> (r: Result<(), GridError>)
        requires
            old(self).wf(),
        ensures
            final(self).wf(),
            final(self).config == old(self).config,
            old(self).config.spec_in_bounds(pos) ==> ({
                &&& r == Ok::<(), GridError>(())
                &&& final(self).spec_tile_at(pos.x as int, pos.y as int) == Some(tile)
                &&& forall|x: int, y: int|
                    old(self).config.in_bounds_xy(x, y) && (x != pos.x as int || y != pos.y as int)
                        ==> #[trigger] final(self).spec_tile_at(x, y)
                            == old(self).spec_tile_at(x, y)
                &&& forall|cx: int, cy: int|
                    old(self).config.chunk_in_range(cx, cy)
                        ==> (#[trigger] final(self).spec_dirty(cx, cy)
                            <==> (old(self).spec_dirty(cx, cy)
                                || (cx == old(self).config.chunk_x(pos.x as int)
                                    && cy == old(self).config.chunk_y(pos.y as int))))
                &&& final(self).tiles_view() == old(self).tiles_view().insert(
                    (pos.x as int, pos.y as int),
                    tile,
                )
            }),
            !old(self).config.spec_in_bounds(pos) ==> r == Err::<(), GridError>(
                GridError::OutOfBounds(pos),
            ) && *final(self) == *old(self),
    {
        if !self.config.in_bounds(pos) {
            return Err(GridError::OutOfBounds(pos));
        }
        let ghost pre = *self;
        let cc = self.config.chunk_for(pos);
        proof {
            lemma_addressing_xy(pre.config, pos.x as int, pos.y as int);
        }
        self.ensure_chunk(cc);
        let ghost mid = *self;
        let ci: u32 = self.config.chunk_table_index(pos);
        let li: u32 = self.config.local_slot(pos);
        self.chunks[ci as usize].tiles[li as usize] = Some(tile);
        self.chunks[ci as usize].dirty = true;
        proof {
            let px = pos.x as int;
            let py = pos.y as int;
            assert forall|x: int, y: int|
                pre.config.in_bounds_xy(x, y) && (x != px || y != py) implies #[trigger] self
                .spec_tile_at(x, y) == pre.spec_tile_at(x, y) by {
                lemma_addressing_xy(pre.config, x, y);
                assert(mid.spec_tile_at(x, y) == pre.spec_tile_at(x, y));
                if pre.config.chunk_index_of(x, y) == ci as int {
                    if pre.config.local_index_of(x, y) == li as int {
                        lemma_addressing_injective_xy(pre.config, x, y, px, py);
                    } else {
                        assert(self.chunks[ci as int].tiles@ == mid.chunks[ci as int].tiles@.update(
                            li as int,
                            Some(tile),
                        ));
                        assert(self.spec_tile_at(x, y) == mid.spec_tile_at(x, y));
                    }
                } else {
                    assert(self.chunks[pre.config.chunk_index_of(x, y)] == mid.chunks[pre.config.chunk_index_of(
                        x,
                        y,
                    )]);
                    assert(self.spec_tile_at(x, y) == mid.spec_tile_at(x, y));
                }
            }
            assert forall|cx: int, cy: int| pre.config.chunk_in_range(cx, cy) implies (
            #[trigger] self.spec_dirty(cx, cy) <==> (pre.spec_dirty(cx, cy) || (cx
                == pre.config.chunk_x(px) && cy == pre.config.chunk_y(py)))) by {
                lemma_chunk_index_bound(pre.config, cx, cy);
                assert(mid.spec_dirty(cx, cy) == pre.spec_dirty(cx, cy));
                if pre.config.chunk_index(cx, cy) == ci as int {
                    lemma_pair_index_injective(
                        cx,
                        cy,
                        pre.config.chunk_x(px),
                        pre.config.chunk_y(py),
                        pre.config.map_width_chunks as int,
                    );
                    assert(self.spec_dirty(cx, cy));
                } else {
                    assert(self.chunks[pre.config.chunk_index(cx, cy)] == mid.chunks[pre.config.chunk_index(
                        cx,
                        cy,
                    )]);
                }
            }
            lemma_view_insert(pre, *self, pos, tile);
        }
        Ok(())
    }

    /// Applies the batch in order, upserting each entry as `set_tile` would.
    ///
    /// Fail-fast, no rollback: on the first out-of-bounds entry the batch
    /// stops with `OutOfBounds` carrying the position that failed, and the
    /// writes already applied remain committed.
    pub fn bulk_insert(&mut self, entries: &Vec<(TilePos, Tile)>) -> (r: Result<(), GridError>)
        requires
            old(self).wf(),
        ensures
            final(self).wf(),
            final(self).config == old(self).config,
            final(self).tiles_view() == apply_entries(
                old(self).tiles_view(),
                entries@.take(first_oob(old(self).config, entries@)),
            ),
            first_oob(old(self).config, entries@) == entries@.len() ==> r == Ok::<(), GridError>(
                (),
            ),
            first_oob(old(self).config, entries@) < entries@.len() ==> r == Err::<(), GridError>(
                GridError::OutOfBounds(entries@[first_oob(old(self).config, entries@)].0),
            ),
            forall|cx: int, cy: int|
                old(self).config.chunk_in_range(cx, cy)
                    ==> (#[trigger] final(self).spec_dirty(cx, cy)
                        <==> (old(self).spec_dirty(cx, cy) || touches_chunk(
                            old(self).config,
                            entries@,
                            first_oob(old(self).config, entries@),
                            cx,
                            cy,
                        ))),
    {
        let ghost pre = *self;
        let ghost f = first_oob(pre.config, entries@);
        proof {
            lemma_first_oob(pre.config, entries@);
        }
        let mut idx: usize = 0;
        while idx < entries.len()
            invariant
                pre == *old(self),
                pre.wf(),
                self.wf(),
                self.config == pre.config,
                idx <= entries@.len(),
                f == first_oob(pre.config, entries@),
                idx as int <= f <= entries@.len(),
                forall|i: int|
                    0 <= i < f ==> pre.config.spec_in_bounds((#[trigger] entries@[i]).0),
                f < entries@.len() ==> !pre.config.spec_in_bounds(entries@[f].0),
                self.tiles_view() == apply_entries(pre.tiles_view(), entries@.take(idx as int)),
                forall|cx: int, cy: int|
                    pre.config.chunk_in_range(cx, cy) ==> (#[trigger] self.spec_dirty(cx, cy)
                        <==> (pre.spec_dirty(cx, cy) || touches_chunk(
                            pre.config,
                            entries@,
                            idx as int,
                            cx,
                            cy,
                        ))),
            decreases entries@.len() - idx,
        {
            let ghost before = *self;
            let pair = entries[idx];
            let pos = pair.0;
            let tile = pair.1;
            if !self.config.in_bounds(pos) {
                proof {
                    assert(idx as int == f);
                }
                return Err(GridError::OutOfBounds(pos));
            }
            let _ = self.set_tile(pos, tile);
            proof {
                assert((idx as int) < f);
                assert(entries@.take(idx as int + 1) =~= entries@.take(idx as int).push(
                    entries@[idx as int],
                ));
                lemma_apply_entries_push(pre.tiles_view(), entries@.take(idx as int), pos, tile);
                assert forall|cx: int, cy: int| pre.config.chunk_in_range(cx, cy) implies (
                #[trigger] self.spec_dirty(cx, cy) <==> (pre.spec_dirty(cx, cy) || touches_chunk(
                    pre.config,
                    entries@,
                    idx as int + 1,
                    cx,
                    cy,
                ))) by {
                    lemma_touches_extend(pre.config, entries@, idx as int, cx, cy);
                    assert(before.spec_dirty(cx, cy) <==> (pre.spec_dirty(cx, cy)
                        || touches_chunk(pre.config, entries@, idx as int, cx, cy)));
                    assert(self.spec_dirty(cx, cy) <==> (before.spec_dirty(cx, cy) || (cx
                        == pre.config.chunk_x(pos.x as int) && cy == pre.config.chunk_y(
                        pos.y as int,
                    ))));
                }
            }
            idx = idx + 1;
        }
        proof {
            assert(idx as int == f);
        }
        Ok(())
    }

    /// Drains the dirty set: yields the coordinate of every chunk flagged
    /// dirty since the last drain, each exactly once and in row-major chunk
    /// order, and clears the flags. The stored tiles are untouched, and a
    /// second drain with no intervening writes yields nothing.
    pub fn dirty_chunks(&mut self) -> (r: Vec<ChunkCoord>)
        requires
            old(self).wf(),
        ensures
            final(self).wf(),
            final(self).config == old(self).config,
            forall|x: int, y: int|
                old(self).config.in_bounds_xy(x, y) ==> #[trigger] final(self).spec_tile_at(x, y)
                    == old(self).spec_tile_at(x, y),
            forall|cx: int, cy: int|
                old(self).config.chunk_in_range(cx, cy) ==> !(#[trigger] final(self).spec_dirty(
                    cx,
                    cy,
                )),
            forall|i: int|
                0 <= i < r@.len() ==> old(self).config.chunk_in_range(
                    (#[trigger] r@[i]).x as int,
                    r@[i].y as int,
                ) && old(self).spec_dirty(r@[i].x as int, r@[i].y as int),
            forall|cx: int, cy: int|
                old(self).config.chunk_in_range(cx, cy) && old(self).spec_dirty(cx, cy)
                    ==> r@.contains((ChunkCoord { x: cx as u32, y: cy as u32 })),
            forall|i: int, j: int| 0 <= i < j < r@.len() ==> r@[i] != r@[j],
            forall|i: int, j: int|
                0 <= i < j < r@.len() ==> old(self).config.chunk_index(
                    (#[trigger] r@[i]).x as int,
                    r@[i].y as int,
                ) < old(self).config.chunk_index((#[trigger] r@[j]).x as int, r@[j].y as int),
    {
        let ghost pre = *self;
        let mut out: Vec<ChunkCoord> = Vec::new();
        let n: u32 = self.config.num_chunks();
        let mut ci: u32 = 0;
        while ci < n
            invariant
                pre.wf(),
                self.wf(),
                self.config == pre.config,
                ci <= n,
                n as int == pre.config.chunk_count(),
                forall|k: int|
                    0 <= k < self.chunks.len() ==> (#[trigger] self.chunks[k]).tiles
                        == pre.chunks[k].tiles,
                forall|k: int| 0 <= k < ci as int ==> !(#[trigger] self.chunks[k]).dirty,
                forall|k: int|
                    ci as int <= k < self.chunks.len() ==> (#[trigger] self.chunks[k]).dirty
                        == pre.chunks[k].dirty,
                forall|m: int|
                    0 <= m < out@.len() ==> pre.config.chunk_in_range(
                        (#[trigger] out@[m]).x as int,
                        out@[m].y as int,
                    ) && pre.spec_dirty(out@[m].x as int, out@[m].y as int)
                        && pre.config.chunk_index(out@[m].x as int, out@[m].y as int) < ci as int,
                forall|m1: int, m2: int|
                    0 <= m1 < m2 < out@.len() ==> pre.config.chunk_index(
                        (#[trigger] out@[m1]).x as int,
                        out@[m1].y as int,
                    ) < pre.config.chunk_index((#[trigger] out@[m2]).x as int, out@[m2].y as int),
                forall|cx: int, cy: int|
                    pre.config.chunk_in_range(cx, cy) && pre.config.chunk_index(cx, cy)
                        < ci as int && pre.spec_dirty(cx, cy) ==> out@.contains(
                        (ChunkCoord { x: cx as u32, y: cy as u32 }),
                    ),
            decreases n - ci,
        {
            let ghost out_pre = out;
            let cx: u32 = ci % self.config.map_width_chunks;
            let cy: u32 = ci / self.config.map_width_chunks;
            proof {
                lemma_mul_is_commutative(
                    self.config.map_width_chunks as int,
                    self.config.map_height_chunks as int,
                );
                lemma_axis_roundtrip(
                    ci as int,
                    self.config.map_width_chunks as int,
                    self.config.map_height_chunks as int,
                );
                assert(pre.config.chunk_index(cx as int, cy as int) == ci as int);
            }
            if self.chunks[ci as usize].dirty {
                out.push(ChunkCoord { x: cx, y: cy });
                self.chunks[ci as usize].dirty = false;
            }
            proof {
                assert forall|cx2: int, cy2: int|
                    pre.config.chunk_in_range(cx2, cy2) && pre.config.chunk_index(cx2, cy2) < ci
                        as int + 1 && pre.spec_dirty(cx2, cy2) implies out@.contains(
                    (ChunkCoord { x: cx2 as u32, y: cy2 as u32 }),
                ) by {
                    lemma_chunk_index_bound(pre.config, cx2, cy2);
                    if pre.config.chunk_index(cx2, cy2) < ci as int {
                        let c = (ChunkCoord { x: cx2 as u32, y: cy2 as u32 });
                        let m = choose|m: int| 0 <= m < out_pre@.len() && out_pre@[m] == c;
                        assert(out@[m] == c);
                    } else {
                        lemma_pair_index_injective(
                            cx2,
                            cy2,
                            cx as int,
                            cy as int,
                            pre.config.map_width_chunks as int,
                        );
                        assert(out@[out@.len() - 1] == (ChunkCoord { x: cx, y: cy }));
                    }
                }
            }
            ci = ci + 1;
        }
        proof {
            assert forall|cx: int, cy: int| pre.config.chunk_in_range(cx, cy) implies !(
            #[trigger] self.spec_dirty(cx, cy)) by {
                lemma_chunk_index_bound(pre.config, cx, cy);
            }
            assert forall|cx: int, cy: int|
                pre.config.chunk_in_range(cx, cy) && pre.spec_dirty(cx, cy) implies out@.contains(
                (ChunkCoord { x: cx as u32, y: cy as u32 }),
            ) by {
                lemma_chunk_index_bound(pre.config, cx, cy);
            }
            assert forall|x: int, y: int| pre.config.in_bounds_xy(x, y) implies #[trigger] self
                .spec_tile_at(x, y) == pre.spec_tile_at(x, y) by {
                lemma_addressing_xy(pre.config, x, y);
            }
            assert forall|i: int, j: int| 0 <= i < j < out@.len() implies out@[i] != out@[j] by {
                assert(pre.config.chunk_index(out@[i].x as int, out@[i].y as int)
                    < pre.config.chunk_index(out@[j].x as int, out@[j].y as int));
            }
        }
        out
    }

    /// Returns the tile currently stored at `pos`, or none if that slot is
    /// unset; an out-of-bounds position is reported, and nothing is read.
    pub fn get_tile(&self, pos: TilePos) -> (r: Result<Option<Tile>, GridError>)
        requires
            self.wf(),
        ensures
            self.config.spec_in_bounds(pos) ==> r == Ok::<Option<Tile>, GridError>(
                self.spec_tile_at(pos.x as int, pos.y as int),
            ),
            !self.config.spec_in_bounds(pos) ==> r == Err::<Option<Tile>, GridError>(
                GridError::OutOfBounds(pos),
            ),
    {
        if !self.config.in_bounds(pos) {
            return Err(GridError::OutOfBounds(pos));
        }
        let ci: u32 = self.config.chunk_table_index(pos);
        let li: u32 = self.config.local_slot(pos);
        proof {
            lemma_addressing_xy(self.config, pos.x as int, pos.y as int);
        }
        let chunk = &self.chunks[ci as usize];
        if chunk.tiles.len() == 0 {
            Ok(None)
        } else {
            Ok(chunk.tiles[li as usize])
        }
    }
}

/// The abstract store contents after recording `entries` in order into
/// `tiles`: each entry upserts its tile at its position, later entries
/// winning over earlier ones.
pub open spec fn apply_entries(
    tiles: Map<(int, int), Tile>,
    entries: Seq<(TilePos, Tile)>,
) -> Map<(int, int), Tile>
    decreases entries.len(),
{
    if entries.len() == 0 {
        tiles
    } else {
        apply_entries(tiles, entries.drop_last()).insert(
            (entries.last().0.x as int, entries.last().0.y as int),
            entries.last().1,
        )
    }
}

/// Position in `entries` of the first out-of-bounds entry, or the batch
/// length when every entry is in bounds.
pub open spec fn first_oob(cfg: MapConfig, entries: Seq<(TilePos, Tile)>) -> int
    decreases entries.len(),
{
    if entries.len() == 0 {
        0
    } else if !cfg.spec_in_bounds(entries.first().0) {
        0
    } else {
        1 + first_oob(cfg, entries.drop_first())
    }
}

/// Shape of `first_oob`: it lies between 0 and the batch length, every
/// earlier entry is in bounds, and the entry at that position, when there is
/// one, is out of bounds.
pub proof fn lemma_first_oob(cfg: MapConfig, entries: Seq<(TilePos, Tile)>)
    ensures
        0 <= first_oob(cfg, entries) <= entries.len(),
        forall|i: int|
            0 <= i < first_oob(cfg, entries) ==> cfg.spec_in_bounds((#[trigger] entries[i]).0),
        first_oob(cfg, entries) < entries.len() ==> !cfg.spec_in_bounds(
            entries[first_oob(cfg, entries)].0,
        ),
    decreases entries.len(),
{
    if entries.len() == 0 {
    } else if !cfg.spec_in_bounds(entries.first().0) {
    } else {
        let rest = entries.drop_first();
        lemma_first_oob(cfg, rest);
        assert forall|i: int| 0 <= i < first_oob(cfg, entries) implies cfg.spec_in_bounds(
            (#[trigger] entries[i]).0,
        ) by {
            if i > 0 {
                assert(rest[i - 1] == entries[i]);
            }
        }
        if first_oob(cfg, entries) < entries.len() {
            assert(rest[first_oob(cfg, rest)] == entries[first_oob(cfg, entries)]);
        }
    }
}

/// Whether one of the first `n` entries of the batch addresses the chunk at
/// (cx, cy).
pub open spec fn touches_chunk(
    cfg: MapConfig,
    entries: Seq<(TilePos, Tile)>,
    n: int,
    cx: int,
    cy: int,
) -> bool {
    exists|i: int|
        0 <= i < n && cfg.chunk_x((#[trigger] entries[i]).0.x as int) == cx && cfg.chunk_y(
            entries[i].0.y as int,
        ) == cy
}

/// Extending the written prefix by one entry extends the touched chunks by
/// exactly that entry's owning chunk.
proof fn lemma_touches_extend(
    cfg: MapConfig,
    entries: Seq<(TilePos, Tile)>,
    n: int,
    cx: int,
    cy: int,
)
    requires
        0 <= n < entries.len(),
    ensures
        touches_chunk(cfg, entries, n + 1, cx, cy) <==> (touches_chunk(cfg, entries, n, cx, cy)
            || (cfg.chunk_x(entries[n].0.x as int) == cx && cfg.chunk_y(entries[n].0.y as int)
                == cy)),
{
    if touches_chunk(cfg, entries, n + 1, cx, cy) {
        let i = choose|i: int|
            0 <= i < n + 1 && cfg.chunk_x((#[trigger] entries[i]).0.x as int) == cx
                && cfg.chunk_y(entries[i].0.y as int) == cy;
        if i < n {
            assert(touches_chunk(cfg, entries, n, cx, cy));
        }
    }
    if touches_chunk(cfg, entries, n, cx, cy) {
        let i = choose|i: int|
            0 <= i < n && cfg.chunk_x((#[trigger] entries[i]).0.x as int) == cx && cfg.chunk_y(
                entries[i].0.y as int,
            ) == cy;
        assert(touches_chunk(cfg, entries, n + 1, cx, cy));
    }
    if cfg.chunk_x(entries[n].0.x as int) == cx && cfg.chunk_y(entries[n].0.y as int) == cy {
        assert(touches_chunk(cfg, entries, n + 1, cx, cy));
    }
}

/// Bulk equivalence, one step: a batch followed by one more entry leaves the
/// same contents as the batch followed by an individual upsert of that
/// entry. Applied inductively this identifies a bulk insertion with the
/// equivalent sequence of single-tile upserts.
pub proof fn lemma_apply_entries_push(
    tiles: Map<(int, int), Tile>,
    entries: Seq<(TilePos, Tile)>,
    pos: TilePos,
    tile: Tile,
)
    ensures
        apply_entries(tiles, entries.push((pos, tile))) == apply_entries(tiles, entries).insert(
            (pos.x as int, pos.y as int),
            tile,
        ),
{
    assert(entries.push((pos, tile)).drop_last() =~= entries);
    assert(entries.push((pos, tile)).last() == (pos, tile));
}

/// Bulk lookup: a position that no later entry rewrites ends up holding
/// exactly its entry's tile. On a batch of distinct positions this holds of
/// every entry.
pub proof fn lemma_apply_entries_lookup(
    tiles: Map<(int, int), Tile>,
    entries: Seq<(TilePos, Tile)>,
    i: int,
)
    requires
        0 <= i < entries.len(),
        forall|j: int| i < j < entries.len() ==> (#[trigger] entries[j]).0 != entries[i].0,
    ensures
        apply_entries(tiles, entries).dom().contains(
            (entries[i].0.x as int, entries[i].0.y as int),
        ),
        apply_entries(tiles, entries)[(entries[i].0.x as int, entries[i].0.y as int)]
            == entries[i].1,
    decreases entries.len(),
{
    if i == entries.len() - 1 {
    } else {
        let rest = entries.drop_last();
        assert(entries.last() == entries[entries.len() - 1]);
        assert(entries[entries.len() - 1].0 != entries[i].0);
        assert forall|j: int| i < j < rest.len() implies (#[trigger] rest[j]).0 != rest[i].0 by {
            assert(rest[j] == entries[j]);
        }
        lemma_apply_entries_lookup(tiles, rest, i);
        assert((entries.last().0.x as int, entries.last().0.y as int) != (
        entries[i].0.x as int,
        entries[i].0.y as int,
        ));
    }
}

/// Bulk frame: a key that no entry of the batch addresses keeps exactly the
/// contents it had before the batch.
pub proof fn lemma_apply_entries_untouched(
    tiles: Map<(int, int), Tile>,
    entries: Seq<(TilePos, Tile)>,
    k: (int, int),
)
    requires
        forall|i: int|
            0 <= i < entries.len() ==> ((#[trigger] entries[i]).0.x as int, entries[i].0.y as int)
                != k,
    ensures
        apply_entries(tiles, entries).dom().contains(k) == tiles.dom().contains(k),
        tiles.dom().contains(k) ==> apply_entries(tiles, entries)[k] == tiles[k],
    decreases entries.len(),
{
    if entries.len() > 0 {
        let rest = entries.drop_last();
        assert forall|i: int| 0 <= i < rest.len() implies (
        (#[trigger] rest[i]).0.x as int,
        rest[i].0.y as int,
        ) != k by {
            assert(rest[i] == entries[i]);
        }
        assert(entries.last() == entries[entries.len() - 1]);
        lemma_apply_entries_untouched(tiles, rest, k);
    }
}

/// The abstract contents agree with the per-slot reads: an in-bounds
/// position is in the contents exactly when its slot holds a tile, and then
/// with exactly that tile.
pub proof fn lemma_view_agrees(m: TileMap, x: int, y: int)
    requires
        m.wf(),
        m.config.in_bounds_xy(x, y),
    ensures
        m.tiles_view().dom().contains((x, y)) <==> m.spec_tile_at(x, y) is Some,
        m.spec_tile_at(x, y) is Some ==> m.tiles_view()[(x, y)] == m.spec_tile_at(x, y)->0,
{
}

/// Upsert idempotence: writing a position twice leaves exactly one record
/// there, holding the later tile — the same contents as the later write
/// alone.
pub proof fn lemma_upsert_idempotent(
    tiles: Map<(int, int), Tile>,
    k: (int, int),
    t1: Tile,
    t2: Tile,
)
    ensures
        tiles.insert(k, t1).insert(k, t2) == tiles.insert(k, t2),
{
    assert(tiles.insert(k, t1).insert(k, t2) =~= tiles.insert(k, t2));
}

/// Read-after-write: a store whose contents are those left by an upsert of
/// `tile` at an in-bounds `pos` holds exactly `Some(tile)` in the slot that
/// a read of `pos` returns.
pub proof fn lemma_read_after_write(before: TileMap, after: TileMap, pos: TilePos, tile: Tile)
    requires
        before.wf(),
        after.wf(),
        after.config == before.config,
        before.config.spec_in_bounds(pos),
        after.tiles_view() == before.tiles_view().insert((pos.x as int, pos.y as int), tile),
    ensures
        after.spec_tile_at(pos.x as int, pos.y as int) == Some(tile),
{
    let k = (pos.x as int, pos.y as int);
    lemma_view_agrees(after, k.0, k.1);
    assert(after.tiles_view().dom().contains(k));
    assert(after.tiles_view()[k] == tile);
}

/// A store whose slots agree with `pre` everywhere but at `pos`, where it
/// now holds `tile`, has as its abstract contents exactly `pre`'s contents
/// with `tile` recorded at `pos`.
proof fn lemma_view_insert(pre: TileMap, post: TileMap, pos: TilePos, tile: Tile)
    requires
        pre.wf(),
        post.wf(),
        post.config == pre.config,
        pre.config.spec_in_bounds(pos),
        post.spec_tile_at(pos.x as int, pos.y as int) == Some(tile),
        forall|x: int, y: int|
            pre.config.in_bounds_xy(x, y) && (x != pos.x as int || y != pos.y as int)
                ==> #[trigger] post.spec_tile_at(x, y) == pre.spec_tile_at(x, y),
    ensures
        post.tiles_view() == pre.tiles_view().insert((pos.x as int, pos.y as int), tile),
{
    let k = (pos.x as int, pos.y as int);
    let lhs = post.tiles_view();
    let rhs = pre.tiles_view().insert(k, tile);
    assert forall|q: (int, int)| lhs.dom().contains(q) <==> rhs.dom().contains(q) by {
        if q != k && pre.config.in_bounds_xy(q.0, q.1) {
            assert(post.spec_tile_at(q.0, q.1) == pre.spec_tile_at(q.0, q.1));
        }
    }
    assert forall|q: (int, int)| lhs.dom().contains(q) implies lhs[q] == rhs[q] by {
        if q != k {
            assert(post.spec_tile_at(q.0, q.1) == pre.spec_tile_at(q.0, q.1));
        }
    }
    assert(lhs =~= rhs);
}

/// A freshly allocated, zero-initialized slot buffer: `n` unset slots.
fn empty_slots(n: u32) -> (r: Vec<Option<Tile>>)
    ensures
        r@.len() == n as int,
        forall|j: int| 0 <= j < n as int ==> (#[trigger] r@[j]) is None,
{
    let mut v: Vec<Option<Tile>> = Vec::new();
    let mut i: u32 = 0;
    while i < n
        invariant
            i <= n,
            v@.len() == i as int,
            forall|j: int| 0 <= j < i as int ==> (#[trigger] v@[j]) is None,
        decreases n - i,
    {
        v.push(None);
        i = i + 1;
    }
    v
}

} // verus!
