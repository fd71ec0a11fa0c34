//! Chunk coordinates and the conversions between world space and chunk space.
//!
//! A chunk is addressed by an integer pair `(x, z)` on the horizontal grid;
//! there is no vertical chunk stacking.  The two conversions here must stay
//! exactly consistent with one another: the chunk derived from a chunk's own
//! world anchor is that chunk again (`lemma_anchor_round_trip`).
//!
//! The viewer is assigned the chunk whose geometry contains it: a chunk's
//! blocks span half a side length to each side of its anchor, so the
//! derivation adds half a side length before flooring, and the boundary of
//! the assignment falls midway between two anchors.

use vstd::prelude::*;

use crate::config::{CHUNK_HALF_SIDE_EXTENT, CHUNK_SIDE_EXTENT, COORD_LIMIT, RADIUS_LIMIT,
    WORLD_LIMIT};

verus! {

/// Position of a chunk on the horizontal grid.
#[derive(Clone, Copy, Debug, PartialEq, Eq, Structural)]
pub struct ChunkCoordinate {
    pub x: i32,
    pub z: i32,
}

/// Chunk coordinates the cache and the conversions work with.
pub open spec fn coord_in_range(c: ChunkCoordinate) -> bool {
    &&& -COORD_LIMIT <= c.x <= COORD_LIMIT
    &&& -COORD_LIMIT <= c.z <= COORD_LIMIT
}

/// Chunk coordinates the viewer's chunk may take: a full streaming radius
/// of headroom inside `coord_in_range`, so that every coordinate of the
/// square around a center is itself in range.
pub open spec fn center_in_range(c: ChunkCoordinate) -> bool {
    &&& RADIUS_LIMIT - COORD_LIMIT <= c.x <= COORD_LIMIT - RADIUS_LIMIT
    &&& RADIUS_LIMIT - COORD_LIMIT <= c.z <= COORD_LIMIT - RADIUS_LIMIT
}

/// Chunk index that a world position (half-block units) falls in along one
/// horizontal axis: floor division by the chunk side length, after adding
/// the half-side offset that centres each chunk on its anchor.
pub open spec fn spec_axis_chunk(w: int) -> int {
    (w + CHUNK_HALF_SIDE_EXTENT) / (CHUNK_SIDE_EXTENT as int)
}

/// World anchor (half-block units) of a chunk along one horizontal axis:
/// the centre of the chunk's geometry.
pub open spec fn spec_axis_anchor(c: int) -> int {
    c * CHUNK_SIDE_EXTENT
}

/// Chebyshev square of the given radius around `center`: the set of chunk
/// coordinates that must remain materialized.
pub open spec fn in_square(c: ChunkCoordinate, center: ChunkCoordinate, radius: int) -> bool {
    &&& center.x - radius <= c.x <= center.x + radius
    &&& center.z - radius <= c.z <= center.z + radius
}

/// Squared Euclidean distance between two chunk coordinates, used by the
/// eviction policy.
pub open spec fn chunk_dist2(a: ChunkCoordinate, b: ChunkCoordinate) -> int {
    (a.x - b.x) * (a.x - b.x) + (a.z - b.z) * (a.z - b.z)
}

/// Floor division of a world-axis offset by the chunk side length.
fn floor_div_side(a: i64) -> (q: i64)
    requires
        -WORLD_LIMIT - CHUNK_HALF_SIDE_EXTENT <= a <= WORLD_LIMIT + CHUNK_HALF_SIDE_EXTENT,
    ensures
        q == a as int / (CHUNK_SIDE_EXTENT as int),
{
    match a.checked_div_euclid(CHUNK_SIDE_EXTENT) {
        Some(q) => q,
        None => 0,
    }
}

/// Chunk coordinate that a world position (half-block units) falls in.
pub fn get_chunk_coord_from_world_coord(wx: i64, wz: i64) -> (c: ChunkCoordinate)
    requires
        -WORLD_LIMIT <= wx <= WORLD_LIMIT,
        -WORLD_LIMIT <= wz <= WORLD_LIMIT,
    ensures
        c.x == spec_axis_chunk(wx as int),
        c.z == spec_axis_chunk(wz as int),
        coord_in_range(c),
        center_in_range(c),
{
    let qx = floor_div_side(wx + CHUNK_HALF_SIDE_EXTENT);
    let qz = floor_div_side(wz + CHUNK_HALF_SIDE_EXTENT);
    proof {
        lemma_axis_chunk_in_range(wx as int);
        lemma_axis_chunk_in_range(wz as int);
    }
    ChunkCoordinate { x: qx as i32, z: qz as i32 }
}

/// World anchor (half-block units) of a chunk: the world-space centre of its
/// geometry, with the vertical component fixed at zero.
pub fn get_world_coord_from_chunk_coord(c: ChunkCoordinate) -> (w: (i64, i64))
    requires
        coord_in_range(c),
    ensures
        w.0 == spec_axis_anchor(c.x as int),
        w.1 == spec_axis_anchor(c.z as int),
{
    (c.x as i64 * CHUNK_SIDE_EXTENT, c.z as i64 * CHUNK_SIDE_EXTENT)
}

/// The derived chunk coordinate leaves a full streaming radius of headroom
/// inside `COORD_LIMIT` for every world position within `WORLD_LIMIT`.
proof fn lemma_axis_chunk_in_range(w: int)
    requires
        -WORLD_LIMIT <= w <= WORLD_LIMIT,
    ensures
        RADIUS_LIMIT - COORD_LIMIT <= spec_axis_chunk(w) <= COORD_LIMIT - RADIUS_LIMIT,
{
    let side = CHUNK_SIDE_EXTENT as int;
    vstd::arithmetic::div_mod::lemma_div_is_ordered(w + CHUNK_HALF_SIDE_EXTENT,
        WORLD_LIMIT + CHUNK_HALF_SIDE_EXTENT, side);
    vstd::arithmetic::div_mod::lemma_div_is_ordered(-WORLD_LIMIT - CHUNK_HALF_SIDE_EXTENT,
        w + CHUNK_HALF_SIDE_EXTENT, side);
}

/// Round trip of the two conversions: the chunk coordinate derived from a
/// chunk's world anchor is that chunk coordinate again.
pub proof fn lemma_anchor_round_trip(c: ChunkCoordinate)
    requires
        coord_in_range(c),
    ensures
        spec_axis_chunk(spec_axis_anchor(c.x as int)) == c.x as int,
        spec_axis_chunk(spec_axis_anchor(c.z as int)) == c.z as int,
{
    lemma_axis_round_trip(c.x as int);
    lemma_axis_round_trip(c.z as int);
}

/// One-axis form of the round trip.
proof fn lemma_axis_round_trip(c: int)
    ensures
        spec_axis_chunk(spec_axis_anchor(c)) == c,
{
    let side = CHUNK_SIDE_EXTENT as int;
    vstd::arithmetic::div_mod::lemma_fundamental_div_mod_converse(
        c * side + CHUNK_HALF_SIDE_EXTENT, side, c, CHUNK_HALF_SIDE_EXTENT as int);
}

/// A chunk within Euclidean distance `radius` of the center lies within the
/// Chebyshev square of the same radius.
pub proof fn lemma_euclid_within_square(c: ChunkCoordinate, center: ChunkCoordinate, radius: int)
    requires
        0 <= radius,
        chunk_dist2(c, center) <= radius * radius,
    ensures
        in_square(c, center, radius),
{
    let dx = c.x - center.x;
    let dz = c.z - center.z;
    assert(dx * dx <= radius * radius && dz * dz <= radius * radius) by (nonlinear_arith)
        requires
            dx * dx + dz * dz <= radius * radius,
    {
    }
    assert(-radius <= dx <= radius && -radius <= dz <= radius) by (nonlinear_arith)
        requires
            dx * dx <= radius * radius,
            dz * dz <= radius * radius,
            0 <= radius,
    {
    }
}

/// Whether a chunk's Euclidean distance from the center exceeds the given
/// radius; this is the eviction test.
pub fn chunk_distance_exceeds(c: ChunkCoordinate, center: ChunkCoordinate, radius: i64) -> (b:
    bool)
    requires
        coord_in_range(c),
        coord_in_range(center),
        1 <= radius <= RADIUS_LIMIT,
    ensures
        b == (chunk_dist2(c, center) > radius * radius),
{
    let dx = c.x as i64 - center.x as i64;
    let dz = c.z as i64 - center.z as i64;
    if dx > radius || dx < -radius || dz > radius || dz < -radius {
        proof {
            assert(dx * dx + dz * dz > radius * radius) by (nonlinear_arith)
                requires
                    dx > radius || dx < -radius || dz > radius || dz < -radius,
                    1 <= radius,
            {
            }
        }
        true
    } else {
        proof {
            assert(0 <= dx * dx <= RADIUS_LIMIT * RADIUS_LIMIT && 0 <= dz * dz <= RADIUS_LIMIT
                * RADIUS_LIMIT && 0 <= radius * radius <= RADIUS_LIMIT * RADIUS_LIMIT)
                by (nonlinear_arith)
                requires
                    -radius <= dx <= radius,
                    -radius <= dz <= radius,
                    1 <= radius <= RADIUS_LIMIT,
            {
            }
        }
        dx * dx + dz * dz > radius * radius
    }
}

} // verus!
