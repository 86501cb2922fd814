//! Chunked tile-grid storage and update engine.
//!
//! A logical 2-D grid of tiles is partitioned into fixed-size chunks. The
//! store supports addressed read/write of single tile records, bulk
//! insertion, per-chunk dirty tracking for downstream render consumers, and a
//! deterministic per-tick sweep that rewrites every tile's texture index from
//! a row-based formula.

use vstd::prelude::*;

pub mod config;
pub mod coords;
pub mod scheduler;
pub mod store;

verus! {

/// Error kinds surfaced by the grid engine.
#[derive(Clone, Copy, Debug, PartialEq, Eq, Structural)]
pub enum GridError {
    /// A position lies outside the current map extents; carries the
    /// offending position. Recoverable: the caller decides whether to skip,
    /// log, or abort a batch.
    OutOfBounds(coords::TilePos),
    /// Map or chunk dimensions are non-positive or mutually inconsistent at
    /// construction time. Fatal to map construction.
    InvalidConfiguration,
    /// A chunk's backing buffer could not be acquired. With a fixed,
    /// known-upfront grid size this is unrecoverable resource exhaustion.
    AllocationFailure,
}

} // verus!
