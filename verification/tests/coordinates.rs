use boxworld::coords::{get_chunk_coord_from_world_coord, get_world_coord_from_chunk_coord,
    ChunkCoordinate};

#[test]
fn indices_to_world_coordinate() {
    let anchor = get_world_coord_from_chunk_coord(ChunkCoordinate { x: 2, z: -3 });
    assert_eq!(anchor, (64, -96));
}

#[test]
fn mod_indices_to_world_coordinate() {
    let anchor = get_world_coord_from_chunk_coord(ChunkCoordinate { x: 0, z: 0 });
    assert_eq!(anchor, (0, 0));
}

#[test]
fn anchor_round_trip() {
    let coords = [
        ChunkCoordinate { x: 0, z: 0 },
        ChunkCoordinate { x: 1, z: -1 },
        ChunkCoordinate { x: -7, z: 13 },
        ChunkCoordinate { x: 1000, z: -4096 },
        ChunkCoordinate { x: -999_967_232, z: 999_967_232 },
    ];
    for c in coords {
        let (wx, wz) = get_world_coord_from_chunk_coord(c);
        assert_eq!(get_chunk_coord_from_world_coord(wx, wz), c);
    }
}

#[test]
fn viewer_chunk_boundary_is_between_anchors() {
    // Chunk 0 is centred on world 0 and spans [-16, 16) half-block units.
    assert_eq!(get_chunk_coord_from_world_coord(0, 0), ChunkCoordinate { x: 0, z: 0 });
    assert_eq!(get_chunk_coord_from_world_coord(15, 0), ChunkCoordinate { x: 0, z: 0 });
    assert_eq!(get_chunk_coord_from_world_coord(16, 0), ChunkCoordinate { x: 1, z: 0 });
    assert_eq!(get_chunk_coord_from_world_coord(-16, 0), ChunkCoordinate { x: 0, z: 0 });
    assert_eq!(get_chunk_coord_from_world_coord(-17, 0), ChunkCoordinate { x: -1, z: 0 });
    assert_eq!(get_chunk_coord_from_world_coord(0, 47), ChunkCoordinate { x: 0, z: 1 });
    assert_eq!(get_chunk_coord_from_world_coord(0, 48), ChunkCoordinate { x: 0, z: 2 });
}
