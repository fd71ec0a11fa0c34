use boxworld::block::{Block, BlockType};
use boxworld::boxworld::BoxWorld;
use boxworld::chunk::Chunk;
use boxworld::coords::ChunkCoordinate;

fn dirt_chunk(c: ChunkCoordinate) -> Chunk {
    Chunk::with_block(Some(Block::new(BlockType::Dirt)), c)
}

fn world_anchor(c: ChunkCoordinate) -> (i64, i64) {
    boxworld::coords::get_world_coord_from_chunk_coord(c)
}

fn contains(coords: &[ChunkCoordinate], x: i32, z: i32) -> bool {
    coords.iter().any(|c| *c == ChunkCoordinate { x, z })
}

#[test]
fn scenario_initial_fill() {
    // Empty world, render radius 1, viewer at the origin.
    let mut w = BoxWorld::with_radius(1);
    assert!(w.update_current_chunk_coord(0, 0));
    let needed = w.needed_chunk_coord();
    assert_eq!(needed.len(), 9);
    for dx in -1..=1 {
        for dz in -1..=1 {
            assert!(contains(&needed, dx, dz));
        }
    }
    let submitted = w.enqueue_work();
    assert_eq!(submitted.len(), 9);
    assert_eq!(w.enqueued_len(), 9);
    assert!(w.needed_chunk_coord().is_empty());
    for c in submitted {
        w.insert_chunk(c, dirt_chunk(c));
    }
    assert_eq!(w.visible_len(), 9);
    assert_eq!(w.enqueued_len(), 0);
    for dx in -1..=1 {
        for dz in -1..=1 {
            assert!(w.visible_contains_key(ChunkCoordinate { x: dx, z: dz }));
        }
    }
    assert!(w.needed_chunk_coord().is_empty());
}

#[test]
fn scenario_center_jump_evicts_everything() {
    // Fill a radius-1 world at (0, 0), then jump the viewer to chunk
    // (5, 0): every old chunk is farther than 1 and leaves; the new 3x3
    // neighbourhood is requested in full.
    let mut w = BoxWorld::with_radius(1);
    w.update_current_chunk_coord(0, 0);
    for c in w.enqueue_work() {
        w.insert_chunk(c, dirt_chunk(c));
    }
    assert_eq!(w.visible_len(), 9);
    let (wx, wz) = world_anchor(ChunkCoordinate { x: 5, z: 0 });
    assert!(w.update_current_chunk_coord(wx, wz));
    assert_eq!(w.get_current_chunk_coord(), ChunkCoordinate { x: 5, z: 0 });
    w.evict_far_chunks();
    assert_eq!(w.visible_len(), 0);
    let needed = w.needed_chunk_coord();
    assert_eq!(needed.len(), 9);
    for dx in 4..=6 {
        for dz in -1..=1 {
            assert!(contains(&needed, dx, dz));
        }
    }
}

#[test]
fn scenario_center_step_keeps_overlap() {
    // One chunk to the right: of the old nine, only the ones within
    // Euclidean distance 1 of (1, 0) stay — (0,0), (1,-1), (1,0), (1,1) —
    // and exactly the five missing coordinates of the new square are
    // requested (the old square's far corners leave although two of the
    // new square's corners will be re-requested: eviction is Euclidean,
    // need is Chebyshev).
    let mut w = BoxWorld::with_radius(1);
    w.update_current_chunk_coord(0, 0);
    for c in w.enqueue_work() {
        w.insert_chunk(c, dirt_chunk(c));
    }
    let (wx, wz) = world_anchor(ChunkCoordinate { x: 1, z: 0 });
    assert!(w.update_current_chunk_coord(wx, wz));
    w.evict_far_chunks();
    assert_eq!(w.visible_len(), 4);
    assert!(w.visible_contains_key(ChunkCoordinate { x: 0, z: 0 }));
    assert!(w.visible_contains_key(ChunkCoordinate { x: 1, z: -1 }));
    assert!(w.visible_contains_key(ChunkCoordinate { x: 1, z: 0 }));
    assert!(w.visible_contains_key(ChunkCoordinate { x: 1, z: 1 }));
    let needed = w.needed_chunk_coord();
    assert_eq!(needed.len(), 5);
    assert!(contains(&needed, 0, -1));
    assert!(contains(&needed, 0, 1));
    assert!(contains(&needed, 2, -1));
    assert!(contains(&needed, 2, 0));
    assert!(contains(&needed, 2, 1));
}

#[test]
fn eviction_uses_euclidean_distance() {
    // Radius 2: a chunk stays exactly when dx*dx + dz*dz <= 4, so the
    // square's corner-adjacent cell (2, 1) leaves while (2, 0) stays.
    let mut w = BoxWorld::with_radius(2);
    w.update_current_chunk_coord(0, 0);
    let on_boundary = ChunkCoordinate { x: 2, z: 0 };
    let inside = ChunkCoordinate { x: 1, z: 1 };
    let outside = ChunkCoordinate { x: 2, z: 1 };
    for c in [on_boundary, inside, outside] {
        w.insert_chunk(c, dirt_chunk(c));
    }
    w.evict_far_chunks();
    assert!(w.visible_contains_key(on_boundary));
    assert!(w.visible_contains_key(inside));
    assert!(!w.visible_contains_key(outside));
}

#[test]
fn enqueue_never_duplicates() {
    let mut w = BoxWorld::with_radius(1);
    w.update_current_chunk_coord(0, 0);
    let c = ChunkCoordinate { x: 0, z: 0 };
    let submitted = w.enqueue(&vec![c, c, c]);
    assert_eq!(submitted.len(), 1);
    assert!(w.enqueued_contains(c));
    // Already in flight: a second request is suppressed.
    assert!(w.enqueue(&vec![c]).is_empty());
    // Materialized: still suppressed after completion.
    w.insert_chunk(c, dirt_chunk(c));
    assert!(!w.enqueued_contains(c));
    assert!(w.enqueue(&vec![c]).is_empty());
}

#[test]
fn update_center_reports_movement() {
    let mut w = BoxWorld::new();
    assert!(w.update_current_chunk_coord(0, 0));
    assert!(!w.update_current_chunk_coord(4, -4));
    assert!(!w.update_current_chunk_coord(15, 15));
    assert!(w.update_current_chunk_coord(16, 0));
    assert!(w.update_current_chunk_coord(0, 0));
}

#[test]
fn aggregation_is_idempotent() {
    let mut w = BoxWorld::with_radius(1);
    w.update_current_chunk_coord(0, 0);
    for c in w.enqueue_work() {
        w.insert_chunk(c, dirt_chunk(c));
    }
    assert!(w.is_dirty());
    let first = w.aggregate_instances();
    assert!(!w.is_dirty());
    let second = w.aggregate_instances();
    assert_eq!(first, second);
    assert!(!w.is_dirty());
    assert_eq!(first.len(), 9 * 640);
    assert_eq!(w.get_raw_face_instances_len(), 9 * 640);
}

#[test]
fn insert_marks_dirty() {
    let mut w = BoxWorld::with_radius(1);
    w.update_current_chunk_coord(0, 0);
    let _ = w.aggregate_instances();
    assert!(!w.is_dirty());
    let c = ChunkCoordinate { x: 0, z: 0 };
    w.insert_chunk(c, dirt_chunk(c));
    assert!(w.is_dirty());
}

#[test]
fn late_completion_is_inserted_then_evicted() {
    // A completion for a coordinate that fell out of range is accepted and
    // removed again by the next distance check.
    let mut w = BoxWorld::with_radius(1);
    w.update_current_chunk_coord(0, 0);
    let far = ChunkCoordinate { x: 40, z: 0 };
    w.insert_chunk(far, dirt_chunk(far));
    assert!(w.visible_contains_key(far));
    let refreshed = w.update_blocks();
    assert!(!w.visible_contains_key(far));
    assert!(refreshed.is_empty());
    assert!(!w.is_dirty());
}

#[test]
fn lookup_returns_inserted_chunk() {
    let mut w = BoxWorld::with_radius(1);
    w.update_current_chunk_coord(0, 0);
    let c = ChunkCoordinate { x: 0, z: 1 };
    w.insert_chunk(c, dirt_chunk(c));
    let chunk = w.get_chunk(c).expect("chunk should be materialized");
    assert_eq!(chunk.get_chunk_coord(), c);
    assert_eq!(chunk.get_raw_face_instances().len(), 640);
    assert!(w.get_chunk(ChunkCoordinate { x: 9, z: 9 }).is_none());
}
