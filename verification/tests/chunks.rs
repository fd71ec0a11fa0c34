use boxworld::block::{Block, BlockType, RawFaceInstance};
use boxworld::chunk::Chunk;
use boxworld::config::BLOCKS_PER_CHUNK;
use boxworld::coords::ChunkCoordinate;
use boxworld::face::Face;

fn solid_chunk(x: i32, z: i32) -> Chunk {
    Chunk::with_block(Some(Block::new(BlockType::Dirt)), ChunkCoordinate { x, z })
}

#[test]
fn texture_positions_for_dirt() {
    assert_eq!(Block::get_texture_pos(BlockType::Dirt, Face::Top), (0, 0));
    assert_eq!(Block::get_texture_pos(BlockType::Dirt, Face::Bottom), (2, 0));
    assert_eq!(Block::get_texture_pos(BlockType::Dirt, Face::Left), (1, 0));
    assert_eq!(Block::get_texture_pos(BlockType::Dirt, Face::Right), (1, 0));
    assert_eq!(Block::get_texture_pos(BlockType::Dirt, Face::Front), (1, 0));
    assert_eq!(Block::get_texture_pos(BlockType::Dirt, Face::Back), (1, 0));
}

#[test]
fn solid_chunk_interior_faces() {
    let c = solid_chunk(0, 0);
    // A cell away from every side wall: only its vertical boundary face is
    // exposed (the chunk is two blocks tall, so every cell touches the top
    // or the bottom boundary).
    let b = c.get_block(8, 0, 8).unwrap();
    assert!(b.faces.contains(Face::Bottom));
    assert!(!b.faces.contains(Face::Top));
    assert!(!b.faces.contains(Face::Left));
    assert!(!b.faces.contains(Face::Right));
    assert!(!b.faces.contains(Face::Front));
    assert!(!b.faces.contains(Face::Back));
    let b = c.get_block(8, 1, 8).unwrap();
    assert!(b.faces.contains(Face::Top));
    assert!(!b.faces.contains(Face::Bottom));
}

#[test]
fn solid_chunk_boundary_faces() {
    let c = solid_chunk(0, 0);
    let b = c.get_block(0, 0, 0).unwrap();
    assert!(b.faces.contains(Face::Left));
    assert!(b.faces.contains(Face::Bottom));
    assert!(b.faces.contains(Face::Back));
    assert!(!b.faces.contains(Face::Right));
    assert!(!b.faces.contains(Face::Top));
    assert!(!b.faces.contains(Face::Front));
    let b = c.get_block(15, 1, 15).unwrap();
    assert!(b.faces.contains(Face::Right));
    assert!(b.faces.contains(Face::Top));
    assert!(b.faces.contains(Face::Front));
    assert!(!b.faces.contains(Face::Left));
    assert!(!b.faces.contains(Face::Bottom));
    assert!(!b.faces.contains(Face::Back));
}

#[test]
fn solid_chunk_instance_count() {
    // Surface faces of a 16 x 2 x 16 solid box: 256 top, 256 bottom, and
    // 32 on each of the four side walls.
    let c = solid_chunk(0, 0);
    assert_eq!(c.get_raw_face_instances().len(), 640);
}

#[test]
fn empty_chunk_has_no_instances() {
    let c = Chunk::with_block(None, ChunkCoordinate { x: 3, z: -2 });
    assert_eq!(c.get_raw_face_instances().len(), 0);
    assert!(c.get_block(0, 0, 0).is_none());
}

#[test]
fn single_block_instances() {
    let mut blocks: Vec<Option<Block>> = vec![None; BLOCKS_PER_CHUNK];
    blocks[0] = Some(Block::new(BlockType::Dirt));
    let c = Chunk::with_blocks(blocks, ChunkCoordinate { x: 0, z: 0 });
    // The lone block sits at cell (0, 0, 0), centred at (-15, -1, -15) in
    // half-block units; all six faces are exposed and each instance is
    // pushed one half-unit outward along its face's normal.
    let insts = c.get_raw_face_instances();
    let expected = vec![
        RawFaceInstance { face: Face::Right, x: -14, y: -1, z: -15, tex_u: 1, tex_v: 0 },
        RawFaceInstance { face: Face::Left, x: -16, y: -1, z: -15, tex_u: 1, tex_v: 0 },
        RawFaceInstance { face: Face::Top, x: -15, y: 0, z: -15, tex_u: 0, tex_v: 0 },
        RawFaceInstance { face: Face::Bottom, x: -15, y: -2, z: -15, tex_u: 2, tex_v: 0 },
        RawFaceInstance { face: Face::Front, x: -15, y: -1, z: -14, tex_u: 1, tex_v: 0 },
        RawFaceInstance { face: Face::Back, x: -15, y: -1, z: -16, tex_u: 1, tex_v: 0 },
    ];
    assert_eq!(insts, &expected);
}

#[test]
fn chunk_anchor_offsets_instances() {
    let mut blocks: Vec<Option<Block>> = vec![None; BLOCKS_PER_CHUNK];
    blocks[0] = Some(Block::new(BlockType::Dirt));
    let c = Chunk::with_blocks(blocks, ChunkCoordinate { x: 1, z: -1 });
    // Anchor (32, -32): every instance shifts by it on the x and z axes.
    let insts = c.get_raw_face_instances();
    assert_eq!(insts[0], RawFaceInstance {
        face: Face::Right,
        x: 32 - 14,
        y: -1,
        z: -32 - 15,
        tex_u: 1,
        tex_v: 0,
    });
}
