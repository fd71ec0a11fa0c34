//! The per-tick streaming controller.
//!
//! One tick, run synchronously on the driving thread: merge the drained
//! completions into the cache, derive the viewer's chunk from its position,
//! on a center change evict far chunks and compute what to request, and
//! rebuild the aggregated instance list when it went stale.  The caller —
//! the loop around the external scheduler and renderer — performs the two
//! outward actions: it submits each returned coordinate to the generation
//! backend, and it hands a returned instance list to the renderer as a full
//! replacement.

use vstd::prelude::*;

use crate::block::RawFaceInstance;
use crate::boxworld::{lemma_tick_coverage, queue_distinct, spec_aggregate, BoxWorld};
use crate::chunk::Chunk;
use crate::config::WORLD_LIMIT;
use crate::coords::{in_square, spec_axis_chunk, ChunkCoordinate};

verus! {

/// One streaming tick.  `completions` is everything the generation
/// backend delivered since the last tick, in any order; `(wx, wz)` is the
/// viewer's world position in half-block units.  Returns the coordinates
/// to submit to the backend, and the fully rebuilt instance list if the
/// renderer must replace what it holds.
pub fn stream_tick(
    world: &mut BoxWorld,
    completions: Vec<(ChunkCoordinate, Chunk)>,
    wx: i64,
    wz: i64,
) -> (r: (Vec<ChunkCoordinate>, Option<Vec<RawFaceInstance>>))
    requires
        old(world).wf(),
        -WORLD_LIMIT <= wx <= WORLD_LIMIT,
        -WORLD_LIMIT <= wz <= WORLD_LIMIT,
        forall|i: int|
            0 <= i < completions@.len() ==> (#[trigger] completions@[i]).1.wf()
                && completions@[i].1.coord() == completions@[i].0,
    ensures
        final(world).wf(),
        final(world).centered(),
        final(world).center().x == spec_axis_chunk(wx as int),
        final(world).center().z == spec_axis_chunk(wz as int),
        !final(world).dirty(),
        r.1 matches Some(v) ==> v@ == spec_aggregate(final(world).entries()),
        r.1 is None ==> !old(world).dirty() && completions@.len() == 0,
        (old(world).dirty() || completions@.len() > 0) ==> r.1 is Some,
        queue_distinct(r.0@),
        forall|c: ChunkCoordinate| #[trigger]
            r.0@.contains(c) ==> final(world).enqueued_has(c) && !final(world).visible_has(c),
        (old(world).centered() && old(world).center() == final(world).center()) ==> r.0@.len()
            == 0,
        (old(world).queue().len() == 0 && !(old(world).centered() && old(world).center()
            == final(world).center())) ==> forall|c: ChunkCoordinate|
            ((#[trigger] final(world).visible_has(c)) || final(world).enqueued_has(c))
                <==> in_square(c, final(world).center(), final(world).radius()),
{
    let mut completions = completions;
    let ghost n0 = completions@.len();
    while completions.len() > 0
        invariant
            world.wf(),
            world.center() == old(world).center(),
            world.centered() == old(world).centered(),
            world.radius() == old(world).radius(),
            completions@.len() <= n0,
            world.dirty() == (old(world).dirty() || completions@.len() < n0),
            old(world).queue().len() == 0 ==> world.queue().len() == 0,
            forall|i: int|
                0 <= i < completions@.len() ==> (#[trigger] completions@[i]).1.wf()
                    && completions@[i].1.coord() == completions@[i].0,
        decreases completions@.len(),
    {
        let last = completions.pop();
        let ghost pre_w = *world;
        match last {
            Some((coord, chunk)) => {
                world.insert_chunk(coord, chunk);
            },
            None => {},
        }
        proof {
            if old(world).queue().len() == 0 && world.queue().len() > 0 {
                assert(world.queue().contains(world.queue()[0]));
                assert(world.enqueued_has(world.queue()[0]));
                assert(pre_w.enqueued_has(world.queue()[0]));
            }
        }
    }
    let moved = world.update_current_chunk_coord(wx, wz);
    let mut submit: Vec<ChunkCoordinate> = Vec::new();
    let ghost mut wcov = *world;
    if moved {
        let ghost w0 = *world;
        world.evict_far_chunks();
        let ghost w1 = *world;
        submit = world.enqueue_work();
        proof {
            wcov = *world;
            if old(world).queue().len() == 0 {
                lemma_tick_coverage(w0, w1, wcov, submit@);
            }
        }
    }
    let ghost pre_pull = *world;
    let instances = if world.is_dirty() {
        Some(world.aggregate_instances())
    } else {
        None
    };
    proof {
        assert(world.entries() == pre_pull.entries());
        assert(world.queue() == pre_pull.queue());
        assert forall|c: ChunkCoordinate| #[trigger]
            submit@.contains(c) implies world.enqueued_has(c) && !world.visible_has(c) by {
            assert(pre_pull.enqueued_has(c));
            assert(!pre_pull.visible_has(c));
        }
        if moved && old(world).queue().len() == 0 {
            assert(wcov == pre_pull);
            assert forall|c: ChunkCoordinate|
                ((#[trigger] world.visible_has(c)) || world.enqueued_has(c)) <==> in_square(
                    c,
                    world.center(),
                    world.radius(),
                ) by {
                assert((wcov.visible_has(c) || wcov.enqueued_has(c)) <==> in_square(
                    c,
                    wcov.center(),
                    wcov.radius(),
                ));
            }
        }
    }
    (submit, instances)
}

} // verus!
