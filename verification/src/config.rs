//! Compile-time configuration of the chunk grid and the streaming radius.
//!
//! All world-space lengths in this crate are integers measured in
//! *half-block units*: a block is `BLOCK_EXTENT == 2` units wide, so the
//! centre of every block and the centre of every block face sit on integer
//! coordinates.  A renderer that works in floating-point world units divides
//! these values by two at the boundary.

use vstd::prelude::*;

verus! {

/// Number of blocks along each horizontal side of a chunk.
pub const CHUNK_SIDE_BLOCKS: usize = 16;

/// Number of blocks along the vertical axis of a chunk.
pub const CHUNK_VERTICAL_BLOCKS: usize = 2;

/// Number of cells of the flat per-chunk grid.
pub const BLOCKS_PER_CHUNK: usize = CHUNK_SIDE_BLOCKS * CHUNK_VERTICAL_BLOCKS * CHUNK_SIDE_BLOCKS;

/// Width of a block in half-block units.
pub const BLOCK_EXTENT: i64 = 2;

/// Half the width of a block in half-block units.
pub const BLOCK_HALF_EXTENT: i64 = 1;

/// Horizontal side length of a chunk in half-block units:
/// `CHUNK_SIDE_BLOCKS * BLOCK_EXTENT`.
pub const CHUNK_SIDE_EXTENT: i64 = 32;

/// Half the horizontal side length of a chunk in half-block units.
pub const CHUNK_HALF_SIDE_EXTENT: i64 = 16;

/// Vertical extent of a chunk in half-block units:
/// `CHUNK_VERTICAL_BLOCKS * BLOCK_EXTENT`.
pub const CHUNK_VERTICAL_EXTENT: i64 = 4;

/// Half the vertical extent of a chunk in half-block units.
pub const CHUNK_HALF_VERTICAL_EXTENT: i64 = 2;

/// Default streaming radius in chunks: every chunk whose coordinate is
/// within this Chebyshev distance of the viewer's chunk must be kept
/// materialized.
pub const RENDER_RADIUS: i64 = 3;

/// Largest streaming radius the cache accepts; keeps every distance
/// computation far away from `i32` overflow.
pub const RADIUS_LIMIT: i64 = 32_768;

/// Bound on the magnitude of chunk coordinates the cache works with.
pub const COORD_LIMIT: i32 = 1_000_000_000;

/// Bound on the magnitude of world positions (half-block units) accepted by
/// the coordinate conversions: `CHUNK_SIDE_EXTENT * (COORD_LIMIT - RADIUS_LIMIT)`,
/// so that the derived viewer chunk always leaves a full streaming radius of
/// headroom inside `COORD_LIMIT`.
pub const WORLD_LIMIT: i64 = 31_998_951_424;

/// The constant table above fixes `CHUNK_SIDE_EXTENT` and its half as plain
/// numbers; this lemma pins them to the block counts they abbreviate.
pub proof fn lemma_extents_consistent()
    ensures
        CHUNK_SIDE_EXTENT == CHUNK_SIDE_BLOCKS * BLOCK_EXTENT,
        CHUNK_SIDE_EXTENT == 2 * CHUNK_HALF_SIDE_EXTENT,
        CHUNK_VERTICAL_EXTENT == CHUNK_VERTICAL_BLOCKS * BLOCK_EXTENT,
        CHUNK_VERTICAL_EXTENT == 2 * CHUNK_HALF_VERTICAL_EXTENT,
        BLOCK_EXTENT == 2 * BLOCK_HALF_EXTENT,
        BLOCKS_PER_CHUNK == CHUNK_SIDE_BLOCKS * CHUNK_VERTICAL_BLOCKS * CHUNK_SIDE_BLOCKS,
        WORLD_LIMIT == CHUNK_SIDE_EXTENT * (COORD_LIMIT - RADIUS_LIMIT),
        RADIUS_LIMIT < COORD_LIMIT,
{
}

} // verus!
