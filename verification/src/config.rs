//! Map configuration and the chunk-addressing functions.
//!
//! The configuration fixes the grid extents (expressed in whole chunks), the
//! chunk extents (in tiles), and the rendering hints (tile and atlas pixel
//! sizes). Addressing is a pure function of the configuration: every
//! in-bounds tile position decomposes uniquely into an owning chunk
//! coordinate and a local index inside that chunk, and that decomposition is
//! invertible.

use vstd::prelude::*;
use vstd::arithmetic::div_mod::{
    lemma_div_pos_is_pos, lemma_fundamental_div_mod, lemma_fundamental_div_mod_converse,
    lemma_mod_bound,
};
use vstd::arithmetic::mul::{lemma_mul_inequality, lemma_mul_is_commutative, lemma_mul_upper_bound};

use crate::coords::{ChunkCoord, TilePos};

verus! {

/// Map configuration, consumed once at map construction.
///
/// Dimensions are validated by `TileMap::new`: a configuration is usable only
/// when `wf()` holds.
#[derive(Clone, Copy, Debug, PartialEq, Eq, Structural)]
pub struct MapConfig {
    /// Grid width in whole chunks.
    pub map_width_chunks: u32,
    /// Grid height in whole chunks.
    pub map_height_chunks: u32,
    /// Tiles per chunk along x.
    pub chunk_width: u32,
    /// Tiles per chunk along y.
    pub chunk_height: u32,
    /// Rendering hint: tile width in pixels.
    pub tile_pixel_width: u32,
    /// Rendering hint: tile height in pixels.
    pub tile_pixel_height: u32,
    /// Source texture atlas width in pixels.
    pub atlas_pixel_width: u32,
    /// Source texture atlas height in pixels.
    pub atlas_pixel_height: u32,
    /// Opaque identifier for the logical layer this map represents.
    pub layer_id: u16,
    /// Whether the render bridge may skip off-screen chunks.
    pub culling_enabled: bool,
}

impl MapConfig {
    /// Number of distinct texture indices the atlas offers: whole tiles per
    /// atlas row times whole tiles per atlas column.
    pub open spec fn atlas_tiles(self) -> int {
        (self.atlas_pixel_width as int / self.tile_pixel_width as int)
            * (self.atlas_pixel_height as int / self.tile_pixel_height as int)
    }

    /// Validity of a configuration: all dimensions positive, the derived
    /// tile extents and chunk counts representable in 32 bits, and an atlas
    /// with at least one tile whose indices all fit in a 16-bit
    /// `texture_index`.
    pub open spec fn wf(self) -> bool {
        &&& 0 < self.map_width_chunks
        &&& 0 < self.map_height_chunks
        &&& 0 < self.chunk_width
        &&& 0 < self.chunk_height
        &&& 0 < self.tile_pixel_width
        &&& 0 < self.tile_pixel_height
        &&& 0 < self.atlas_pixel_width
        &&& 0 < self.atlas_pixel_height
        &&& self.map_width_chunks as int * self.chunk_width as int <= u32::MAX as int
        &&& self.map_height_chunks as int * self.chunk_height as int <= u32::MAX as int
        &&& self.chunk_width as int * self.chunk_height as int <= u32::MAX as int
        &&& self.map_width_chunks as int * self.map_height_chunks as int <= u32::MAX as int
        &&& 0 < self.atlas_tiles()
        &&& self.atlas_tiles() <= 0x10000
    }

    /// Grid width in tiles.
    pub open spec fn width_tiles(self) -> int {
        self.map_width_chunks as int * self.chunk_width as int
    }

    /// Grid height in tiles.
    pub open spec fn height_tiles(self) -> int {
        self.map_height_chunks as int * self.chunk_height as int
    }

    /// Total number of chunks in the grid.
    pub open spec fn chunk_count(self) -> int {
        self.map_width_chunks as int * self.map_height_chunks as int
    }

    /// Number of tile slots in one chunk.
    pub open spec fn chunk_area(self) -> int {
        self.chunk_width as int * self.chunk_height as int
    }

    /// Whether the integer coordinates (x, y) lie on the grid.
    pub open spec fn in_bounds_xy(self, x: int, y: int) -> bool {
        &&& 0 <= x < self.width_tiles()
        &&& 0 <= y < self.height_tiles()
    }

    /// Whether a tile position lies on the grid.
    pub open spec fn spec_in_bounds(self, pos: TilePos) -> bool {
        self.in_bounds_xy(pos.x as int, pos.y as int)
    }

    /// Owning chunk column of grid column x.
    pub open spec fn chunk_x(self, x: int) -> int {
        x / (self.chunk_width as int)
    }

    /// Owning chunk row of grid row y.
    pub open spec fn chunk_y(self, y: int) -> int {
        y / (self.chunk_height as int)
    }

    /// Column inside the owning chunk of grid column x.
    pub open spec fn local_x(self, x: int) -> int {
        x % (self.chunk_width as int)
    }

    /// Row inside the owning chunk of grid row y.
    pub open spec fn local_y(self, y: int) -> int {
        y % (self.chunk_height as int)
    }

    /// Row-major position of chunk (cx, cy) in the chunk table.
    pub open spec fn chunk_index(self, cx: int, cy: int) -> int {
        cy * (self.map_width_chunks as int) + cx
    }

    /// Row-major chunk-table position of the chunk owning (x, y).
    pub open spec fn chunk_index_of(self, x: int, y: int) -> int {
        self.chunk_index(self.chunk_x(x), self.chunk_y(y))
    }

    /// Row-major position of local coordinates (lx, ly) in a chunk's slots.
    pub open spec fn local_index(self, lx: int, ly: int) -> int {
        ly * (self.chunk_width as int) + lx
    }

    /// Row-major slot of (x, y) inside its owning chunk.
    pub open spec fn local_index_of(self, x: int, y: int) -> int {
        self.local_index(self.local_x(x), self.local_y(y))
    }

    /// Whether a chunk coordinate lies on the grid of chunks.
    pub open spec fn chunk_in_range(self, cx: int, cy: int) -> bool {
        &&& 0 <= cx < self.map_width_chunks as int
        &&& 0 <= cy < self.map_height_chunks as int
    }

    /// Validates this configuration, reporting exactly whether `wf()` holds.
    pub fn validate(&self) -> (r: bool)
        ensures
            r == self.wf(),
    {
        if self.map_width_chunks == 0 || self.map_height_chunks == 0 || self.chunk_width == 0
            || self.chunk_height == 0 || self.tile_pixel_width == 0 || self.tile_pixel_height == 0
            || self.atlas_pixel_width == 0 || self.atlas_pixel_height == 0 {
            return false;
        }
        let max32: u64 = u32::MAX as u64;
        if mul_u32(self.map_width_chunks, self.chunk_width) > max32 {
            return false;
        }
        if mul_u32(self.map_height_chunks, self.chunk_height) > max32 {
            return false;
        }
        if mul_u32(self.chunk_width, self.chunk_height) > max32 {
            return false;
        }
        if mul_u32(self.map_width_chunks, self.map_height_chunks) > max32 {
            return false;
        }
        let atlas_cols: u32 = self.atlas_pixel_width / self.tile_pixel_width;
        let atlas_rows: u32 = self.atlas_pixel_height / self.tile_pixel_height;
        let atlas_tiles: u64 = mul_u32(atlas_cols, atlas_rows);
        0 < atlas_tiles && atlas_tiles <= 0x10000
    }

    /// Grid width in tiles.
    pub fn map_width_tiles(&self) -> (r: u32)
        requires
            self.wf(),
        ensures
            r as int == self.width_tiles(),
    {
        self.map_width_chunks * self.chunk_width
    }

    /// Grid height in tiles.
    pub fn map_height_tiles(&self) -> (r: u32)
        requires
            self.wf(),
        ensures
            r as int == self.height_tiles(),
    {
        self.map_height_chunks * self.chunk_height
    }

    /// Number of distinct texture indices available from the atlas.
    pub fn atlas_tile_count(&self) -> (r: u32)
        requires
            self.wf(),
        ensures
            r as int == self.atlas_tiles(),
            0 < r <= 0x10000,
    {
        (self.atlas_pixel_width / self.tile_pixel_width)
            * (self.atlas_pixel_height / self.tile_pixel_height)
    }

    /// Whether a tile position lies on the grid.
    pub fn in_bounds(&self, pos: TilePos) -> (r: bool)
        requires
            self.wf(),
        ensures
            r == self.spec_in_bounds(pos),
    {
        pos.x < self.map_width_tiles() && pos.y < self.map_height_tiles()
    }

    /// The chunk owning `pos`: per-axis integer division by the chunk
    /// extents.
    pub fn chunk_for(&self, pos: TilePos) -> (r: ChunkCoord)
        requires
            self.wf(),
        ensures
            r.x as int == self.chunk_x(pos.x as int),
            r.y as int == self.chunk_y(pos.y as int),
    {
        ChunkCoord { x: pos.x / self.chunk_width, y: pos.y / self.chunk_height }
    }

    /// Number of chunks in the grid, as a machine integer.
    pub fn num_chunks(&self) -> (r: u32)
        requires
            self.wf(),
        ensures
            r as int == self.chunk_count(),
    {
        self.map_width_chunks * self.map_height_chunks
    }

    /// Number of tile slots in one chunk, as a machine integer.
    pub fn slots_per_chunk(&self) -> (r: u32)
        requires
            self.wf(),
        ensures
            r as int == self.chunk_area(),
    {
        self.chunk_width * self.chunk_height
    }

    /// Row-major chunk-table position of the chunk owning `pos`.
    pub fn chunk_table_index(&self, pos: TilePos) -> (r: u32)
        requires
            self.wf(),
            self.spec_in_bounds(pos),
        ensures
            r as int == self.chunk_index_of(pos.x as int, pos.y as int),
            (r as int) < self.chunk_count(),
    {
        proof {
            lemma_addressing_xy(*self, pos.x as int, pos.y as int);
        }
        let cx: u32 = pos.x / self.chunk_width;
        let cy: u32 = pos.y / self.chunk_height;
        cy * self.map_width_chunks + cx
    }

    /// Row-major slot of `pos` inside its owning chunk's buffer.
    pub fn local_slot(&self, pos: TilePos) -> (r: u32)
        requires
            self.wf(),
            self.spec_in_bounds(pos),
        ensures
            r as int == self.local_index_of(pos.x as int, pos.y as int),
            (r as int) < self.chunk_area(),
    {
        proof {
            lemma_addressing_xy(*self, pos.x as int, pos.y as int);
        }
        let lx: u32 = pos.x % self.chunk_width;
        let ly: u32 = pos.y % self.chunk_height;
        ly * self.chunk_width + lx
    }

    /// Row-major chunk-table position of an in-range chunk coordinate.
    pub fn chunk_slot(&self, coord: ChunkCoord) -> (r: u32)
        requires
            self.wf(),
            self.chunk_in_range(coord.x as int, coord.y as int),
        ensures
            r as int == self.chunk_index(coord.x as int, coord.y as int),
            (r as int) < self.chunk_count(),
    {
        proof {
            lemma_chunk_index_bound(*self, coord.x as int, coord.y as int);
        }
        coord.y * self.map_width_chunks + coord.x
    }

    /// The position of `pos` inside its owning chunk: per-axis remainder by
    /// the chunk extents.
    pub fn local_of(&self, pos: TilePos) -> (r: (u32, u32))
        requires
            self.wf(),
        ensures
            r.0 as int == self.local_x(pos.x as int),
            r.1 as int == self.local_y(pos.y as int),
    {
        (pos.x % self.chunk_width, pos.y % self.chunk_height)
    }
}

/// Widening product of two 32-bit values; never overflows its 64-bit result.
fn mul_u32(a: u32, b: u32) -> (r: u64)
    ensures
        r as int == a as int * b as int,
{
    proof {
        lemma_mul_upper_bound(a as int, u32::MAX as int, b as int, u32::MAX as int);
        assert(0 <= a as int * b as int) by (nonlinear_arith)
            requires
                0 <= a as int,
                0 <= b as int,
        ;
    }
    (a as u64) * (b as u64)
}

/// Determinism and invertibility of addressing: for every in-bounds tile
/// position, the owning chunk coordinate and the local position combine back
/// to exactly the original position, the chunk coordinate is in range, and
/// the local position lies inside the chunk extents.
pub proof fn lemma_addressing_roundtrip(cfg: MapConfig, pos: TilePos)
    requires
        cfg.wf(),
        cfg.spec_in_bounds(pos),
    ensures
        cfg.chunk_x(pos.x as int) * (cfg.chunk_width as int) + cfg.local_x(pos.x as int)
            == pos.x as int,
        cfg.chunk_y(pos.y as int) * (cfg.chunk_height as int) + cfg.local_y(pos.y as int)
            == pos.y as int,
        cfg.chunk_in_range(cfg.chunk_x(pos.x as int), cfg.chunk_y(pos.y as int)),
        0 <= cfg.local_x(pos.x as int) < cfg.chunk_width as int,
        0 <= cfg.local_y(pos.y as int) < cfg.chunk_height as int,
{
    lemma_axis_roundtrip(pos.x as int, cfg.chunk_width as int, cfg.map_width_chunks as int);
    lemma_axis_roundtrip(pos.y as int, cfg.chunk_height as int, cfg.map_height_chunks as int);
}

/// One axis of the round-trip law: for 0 <= v < n * d with d > 0, the
/// quotient and remainder by d recombine to v, the quotient is below n, and
/// the remainder is below d.
pub proof fn lemma_axis_roundtrip(v: int, d: int, n: int)
    requires
        0 < d,
        0 <= v,
        v < n * d,
    ensures
        (v / d) * d + (v % d) == v,
        0 <= v / d < n,
        0 <= v % d < d,
{
    lemma_fundamental_div_mod(v, d);
    lemma_mul_is_commutative(d, v / d);
    lemma_mod_bound(v, d);
    lemma_div_pos_is_pos(v, d);
    assert(v / d < n) by {
        if v / d >= n {
            lemma_mul_inequality(n, v / d, d);
            assert(n * d <= (v / d) * d);
        }
    }
}

/// The round-trip law over integer coordinates, together with the bounds of
/// every derived index: the owning chunk is in range, the local position lies
/// inside the chunk extents, and both row-major indices lie inside their
/// tables.
pub proof fn lemma_addressing_xy(cfg: MapConfig, x: int, y: int)
    requires
        cfg.wf(),
        cfg.in_bounds_xy(x, y),
    ensures
        cfg.chunk_x(x) * (cfg.chunk_width as int) + cfg.local_x(x) == x,
        cfg.chunk_y(y) * (cfg.chunk_height as int) + cfg.local_y(y) == y,
        cfg.chunk_in_range(cfg.chunk_x(x), cfg.chunk_y(y)),
        0 <= cfg.local_x(x) < cfg.chunk_width as int,
        0 <= cfg.local_y(y) < cfg.chunk_height as int,
        0 <= cfg.chunk_index_of(x, y) < cfg.chunk_count(),
        0 <= cfg.local_index_of(x, y) < cfg.chunk_area(),
{
    lemma_axis_roundtrip(x, cfg.chunk_width as int, cfg.map_width_chunks as int);
    lemma_axis_roundtrip(y, cfg.chunk_height as int, cfg.map_height_chunks as int);
    lemma_pair_index_bound(
        cfg.chunk_x(x),
        cfg.chunk_y(y),
        cfg.map_width_chunks as int,
        cfg.map_height_chunks as int,
    );
    lemma_mul_is_commutative(cfg.map_height_chunks as int, cfg.map_width_chunks as int);
    lemma_pair_index_bound(
        cfg.local_x(x),
        cfg.local_y(y),
        cfg.chunk_width as int,
        cfg.chunk_height as int,
    );
    lemma_mul_is_commutative(cfg.chunk_height as int, cfg.chunk_width as int);
}

/// Injectivity of addressing over integer coordinates: two in-bounds
/// coordinate pairs with the same owning-chunk table position and the same
/// local slot are the same pair.
pub proof fn lemma_addressing_injective_xy(cfg: MapConfig, x1: int, y1: int, x2: int, y2: int)
    requires
        cfg.wf(),
        cfg.in_bounds_xy(x1, y1),
        cfg.in_bounds_xy(x2, y2),
        cfg.chunk_index_of(x1, y1) == cfg.chunk_index_of(x2, y2),
        cfg.local_index_of(x1, y1) == cfg.local_index_of(x2, y2),
    ensures
        x1 == x2,
        y1 == y2,
{
    lemma_addressing_xy(cfg, x1, y1);
    lemma_addressing_xy(cfg, x2, y2);
    lemma_pair_index_injective(
        cfg.chunk_x(x1),
        cfg.chunk_y(y1),
        cfg.chunk_x(x2),
        cfg.chunk_y(y2),
        cfg.map_width_chunks as int,
    );
    lemma_pair_index_injective(
        cfg.local_x(x1),
        cfg.local_y(y1),
        cfg.local_x(x2),
        cfg.local_y(y2),
        cfg.chunk_width as int,
    );
}

/// Distinct in-bounds positions occupy distinct slots: equal owning-chunk
/// table positions together with equal local slots force equal positions.
pub proof fn lemma_addressing_injective(cfg: MapConfig, p1: TilePos, p2: TilePos)
    requires
        cfg.wf(),
        cfg.spec_in_bounds(p1),
        cfg.spec_in_bounds(p2),
        cfg.chunk_index_of(p1.x as int, p1.y as int) == cfg.chunk_index_of(
            p2.x as int,
            p2.y as int,
        ),
        cfg.local_index_of(p1.x as int, p1.y as int) == cfg.local_index_of(
            p2.x as int,
            p2.y as int,
        ),
    ensures
        p1 == p2,
{
    lemma_addressing_injective_xy(cfg, p1.x as int, p1.y as int, p2.x as int, p2.y as int);
}

/// Row-major pairing is injective: with both columns below the row width,
/// equal row-major indices force equal coordinate pairs.
pub proof fn lemma_pair_index_injective(x1: int, y1: int, x2: int, y2: int, w: int)
    requires
        0 < w,
        0 <= x1 < w,
        0 <= x2 < w,
        0 <= y1,
        0 <= y2,
        y1 * w + x1 == y2 * w + x2,
    ensures
        x1 == x2,
        y1 == y2,
{
    let k = y1 * w + x1;
    lemma_fundamental_div_mod_converse(k, w, y1, x1);
    lemma_fundamental_div_mod_converse(k, w, y2, x2);
}

/// An in-range chunk coordinate's row-major table position lies inside the
/// chunk table.
pub proof fn lemma_chunk_index_bound(cfg: MapConfig, cx: int, cy: int)
    requires
        cfg.wf(),
        cfg.chunk_in_range(cx, cy),
    ensures
        0 <= cfg.chunk_index(cx, cy) < cfg.chunk_count(),
{
    lemma_pair_index_bound(cx, cy, cfg.map_width_chunks as int, cfg.map_height_chunks as int);
}

/// An in-chunk local position's row-major slot lies inside the chunk's slot
/// buffer.
pub proof fn lemma_local_index_bound(cfg: MapConfig, lx: int, ly: int)
    requires
        cfg.wf(),
        0 <= lx < cfg.chunk_width as int,
        0 <= ly < cfg.chunk_height as int,
    ensures
        0 <= cfg.local_index(lx, ly) < cfg.chunk_area(),
{
    lemma_pair_index_bound(lx, ly, cfg.chunk_width as int, cfg.chunk_height as int);
}

/// Row-major pairing stays inside the w-by-h table.
pub proof fn lemma_pair_index_bound(x: int, y: int, w: int, h: int)
    requires
        0 <= x < w,
        0 <= y < h,
    ensures
        0 <= y * w + x < h * w,
{
    assert(y * w + x < h * w) by (nonlinear_arith)
        requires
            0 <= x < w,
            0 <= y < h,
    ;
    assert(0 <= y * w) by (nonlinear_arith)
        requires
            0 <= y,
            0 < w,
    ;
}

} // verus!
