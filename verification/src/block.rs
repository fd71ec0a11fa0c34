//! Blocks, block types, and the renderable face-instance records.

use vstd::prelude::*;

use crate::config::BLOCK_HALF_EXTENT;
use crate::face::{Face, FaceSet};

verus! {

/// Kind of a block; immutable once the block is set.  The uniform fill
/// policy of this crate only places `Dirt`; the other variants are
/// placeholders for a future terrain generator and have no texture cells
/// assigned yet.
#[derive(Clone, Copy, Debug, PartialEq, Eq, Structural)]
pub enum BlockType {
    Dirt,
    Grass,
    Cobblestone,
}

/// One voxel: a type tag plus the set of faces that were exposed when the
/// owning chunk was constructed.
#[derive(Clone, Copy, Debug, PartialEq, Eq, Structural)]
pub struct Block {
    pub block_type: BlockType,
    pub faces: FaceSet,
}

impl Block {
    /// A fresh block of the given type with no exposed face recorded yet.
    pub fn new(block_type: BlockType) -> (b: Block)
        ensures
            b.block_type == block_type,
            forall|f: Face| !b.faces.spec_contains(f),
    {
        Block { block_type, faces: FaceSet::empty() }
    }

    /// Texture-atlas cell lookup; defined for the block types the fill
    /// policy places.
    pub fn get_texture_pos(block_type: BlockType, f: Face) -> (p: (i32, i32))
        requires
            block_type == BlockType::Dirt,
        ensures
            p.0 == spec_texture_pos(block_type, f).0,
            p.1 == spec_texture_pos(block_type, f).1,
    {
        match f {
            Face::Top => (0, 0),
            Face::Bottom => (2, 0),
            _ => (1, 0),
        }
    }
}

/// Texture-atlas cell for a block type and face.  Only `Dirt` has cells
/// assigned: its top, bottom and side faces use three different cells.
pub open spec fn spec_texture_pos(block_type: BlockType, f: Face) -> (int, int)
    recommends
        block_type == BlockType::Dirt,
{
    match f {
        Face::Top => (0int, 0int),
        Face::Bottom => (2int, 0int),
        _ => (1int, 0int),
    }
}

/// Outward unit direction of a face, in half-block units per step.
pub open spec fn spec_face_normal(f: Face) -> (int, int, int) {
    match f {
        Face::Right => (1int, 0int, 0int),
        Face::Left => (-1int, 0int, 0int),
        Face::Top => (0int, 1int, 0int),
        Face::Bottom => (0int, -1int, 0int),
        Face::Front => (0int, 0int, 1int),
        Face::Back => (0int, 0int, -1int),
    }
}

/// One renderable quad: the face fixes one of six principal-axis rotations,
/// `(x, y, z)` is the quad centre in world space (half-block units), and
/// `(tex_u, tex_v)` is the texture-atlas cell.
#[derive(Clone, Copy, Debug, PartialEq, Eq, Structural)]
pub struct RawFaceInstance {
    pub face: Face,
    pub x: i64,
    pub y: i64,
    pub z: i64,
    pub tex_u: i32,
    pub tex_v: i32,
}

impl RawFaceInstance {
    /// Instance for the given face of a block whose centre sits at
    /// `(x, y, z)` (half-block units): the quad is pushed half a block
    /// outward along the face's normal.
    pub fn from(block_type: BlockType, f: Face, x: i64, y: i64, z: i64) -> (r: RawFaceInstance)
        requires
            block_type == BlockType::Dirt,
            i64::MIN + BLOCK_HALF_EXTENT <= x <= i64::MAX - BLOCK_HALF_EXTENT,
            i64::MIN + BLOCK_HALF_EXTENT <= y <= i64::MAX - BLOCK_HALF_EXTENT,
            i64::MIN + BLOCK_HALF_EXTENT <= z <= i64::MAX - BLOCK_HALF_EXTENT,
        ensures
            r.face == f,
            r.x == x + BLOCK_HALF_EXTENT * spec_face_normal(f).0,
            r.y == y + BLOCK_HALF_EXTENT * spec_face_normal(f).1,
            r.z == z + BLOCK_HALF_EXTENT * spec_face_normal(f).2,
            r.tex_u == spec_texture_pos(block_type, f).0,
            r.tex_v == spec_texture_pos(block_type, f).1,
    {
        let (tex_u, tex_v) = Block::get_texture_pos(block_type, f);
        let (dx, dy, dz) = match f {
            Face::Right => (BLOCK_HALF_EXTENT, 0i64, 0i64),
            Face::Left => (-BLOCK_HALF_EXTENT, 0i64, 0i64),
            Face::Top => (0i64, BLOCK_HALF_EXTENT, 0i64),
            Face::Bottom => (0i64, -BLOCK_HALF_EXTENT, 0i64),
            Face::Front => (0i64, 0i64, BLOCK_HALF_EXTENT),
            Face::Back => (0i64, 0i64, -BLOCK_HALF_EXTENT),
        };
        RawFaceInstance { face: f, x: x + dx, y: y + dy, z: z + dz, tex_u, tex_v }
    }
}

} // verus!
