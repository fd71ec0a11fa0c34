use boxworld::block::{Block, BlockType};
use boxworld::boxworld::BoxWorld;
use boxworld::chunk::Chunk;
use boxworld::coords::ChunkCoordinate;
use boxworld::streaming::stream_tick;

fn dirt_chunk(c: ChunkCoordinate) -> Chunk {
    Chunk::with_block(Some(Block::new(BlockType::Dirt)), c)
}

#[test]
fn first_tick_requests_whole_square() {
    let mut w = BoxWorld::new();
    let (submit, instances) = stream_tick(&mut w, Vec::new(), 0, 0);
    // Default radius 3: a 7x7 square is missing.
    assert_eq!(submit.len(), 49);
    assert_eq!(w.enqueued_len(), 49);
    assert_eq!(w.visible_len(), 0);
    // The cache starts dirty, so the (empty) aggregate is pulled once.
    let instances = instances.expect("initial aggregate expected");
    assert!(instances.is_empty());
    assert!(!w.is_dirty());
}

#[test]
fn completions_settle_into_the_cache() {
    let mut w = BoxWorld::new();
    let (submit, _) = stream_tick(&mut w, Vec::new(), 0, 0);
    let completions: Vec<(ChunkCoordinate, Chunk)> =
        submit.iter().map(|c| (*c, dirt_chunk(*c))).collect();
    let (submit2, instances) = stream_tick(&mut w, completions, 0, 0);
    assert!(submit2.is_empty());
    assert_eq!(w.visible_len(), 49);
    assert_eq!(w.enqueued_len(), 0);
    let instances = instances.expect("aggregate after completions expected");
    assert_eq!(instances.len(), 49 * 640);
    // A further tick without movement or completions changes nothing.
    let (submit3, instances3) = stream_tick(&mut w, Vec::new(), 0, 0);
    assert!(submit3.is_empty());
    assert!(instances3.is_none());
    assert_eq!(w.visible_len(), 49);
}

#[test]
fn movement_requests_only_missing_chunks() {
    let mut w = BoxWorld::new();
    let (submit, _) = stream_tick(&mut w, Vec::new(), 0, 0);
    let completions: Vec<(ChunkCoordinate, Chunk)> =
        submit.iter().map(|c| (*c, dirt_chunk(*c))).collect();
    stream_tick(&mut w, completions, 0, 0);
    // One chunk to the right (anchor of chunk (1, 0)).
    let (submit2, instances) = stream_tick(&mut w, Vec::new(), 32, 0);
    assert!(instances.is_some());
    // Every requested coordinate lies in the new square and is marked in
    // flight, and nothing materialized is requested again.
    for c in submit2.iter() {
        assert!((c.x - 1).abs() <= 3 && c.z.abs() <= 3);
        assert!(w.enqueued_contains(*c));
        assert!(!w.visible_contains_key(*c));
    }
    assert!(!submit2.is_empty());
}
