//! The chunk cache: the sparse set of materialized chunks around a moving
//! center, the set of coordinates whose generation is in flight, and the
//! aggregation of face instances for the renderer.
//!
//! The cache is the single source of truth for which coordinates are
//! materialized or requested: a coordinate is in the visible map or in the
//! enqueued set, never both, and `enqueue` never submits a coordinate that
//! is already tracked.  All mutation happens on the driving thread; workers
//! only construct chunks and hand back `(coordinate, chunk)` completions.
//!
//! The visible map is a small association list with unique keys (its size
//! is bounded by the streaming square), so every operation is a plain scan.

use vstd::prelude::*;

use crate::block::RawFaceInstance;
use crate::chunk::Chunk;
use crate::config::{RADIUS_LIMIT, RENDER_RADIUS, WORLD_LIMIT};
use crate::coords::{center_in_range, chunk_dist2, chunk_distance_exceeds, coord_in_range,
    get_chunk_coord_from_world_coord, in_square, lemma_euclid_within_square, spec_axis_chunk,
    ChunkCoordinate};

verus! {

/// Whether the keys of an association list of chunks are pairwise distinct.
pub open spec fn keys_distinct(s: Seq<(ChunkCoordinate, Chunk)>) -> bool {
    forall|i: int, j: int| 0 <= i < j < s.len() ==> (#[trigger] s[i]).0 != (#[trigger] s[j]).0
}

/// Whether an association list holds an entry under the given key.
pub open spec fn has_key(s: Seq<(ChunkCoordinate, Chunk)>, c: ChunkCoordinate) -> bool {
    exists|i: int| 0 <= i < s.len() && (#[trigger] s[i]).0 == c
}

/// The chunk an association list holds under the given key (meaningful
/// when `has_key(s, c)` and the keys are distinct).
pub open spec fn value_at(s: Seq<(ChunkCoordinate, Chunk)>, c: ChunkCoordinate) -> Chunk {
    let i = choose|i: int| 0 <= i < s.len() && (#[trigger] s[i]).0 == c;
    s[i].1
}

/// With distinct keys, the entry at an index is the entry its key looks
/// up.
proof fn lemma_value_at_entry(s: Seq<(ChunkCoordinate, Chunk)>, k: int)
    requires
        keys_distinct(s),
        0 <= k < s.len(),
    ensures
        has_key(s, s[k].0),
        value_at(s, s[k].0) == s[k].1,
{
    let c = s[k].0;
    assert(has_key(s, c));
    let i = choose|i: int| 0 <= i < s.len() && (#[trigger] s[i]).0 == c;
    if i != k {
        if i < k {
            assert(s[i].0 != s[k].0);
        } else {
            assert(s[k].0 != s[i].0);
        }
    }
}

/// Replacing the entry at an index by a new chunk under the same key
/// keeps the keys distinct and changes exactly that key's lookup.
proof fn lemma_entries_update(s: Seq<(ChunkCoordinate, Chunk)>, k: int, p: (ChunkCoordinate,
    Chunk))
    requires
        keys_distinct(s),
        0 <= k < s.len(),
        p.0 == s[k].0,
    ensures
        keys_distinct(s.update(k, p)),
        forall|cc: ChunkCoordinate| #[trigger]
            has_key(s.update(k, p), cc) <==> has_key(s, cc),
        value_at(s.update(k, p), p.0) == p.1,
        forall|cc: ChunkCoordinate|
            cc != p.0 && has_key(s, cc) ==> #[trigger] value_at(s.update(k, p), cc) == value_at(
                s,
                cc,
            ),
{
    let s1 = s.update(k, p);
    assert(forall|i: int| 0 <= i < s1.len() ==> (#[trigger] s1[i]).0 == s[i].0);
    assert forall|cc: ChunkCoordinate| #[trigger] has_key(s1, cc) <==> has_key(s, cc) by {
        if has_key(s1, cc) {
            let i = choose|i: int| 0 <= i < s1.len() && (#[trigger] s1[i]).0 == cc;
            assert(s[i].0 == cc);
        }
        if has_key(s, cc) {
            let i = choose|i: int| 0 <= i < s.len() && (#[trigger] s[i]).0 == cc;
            assert(s1[i].0 == cc);
        }
    }
    lemma_value_at_entry(s1, k);
    assert forall|cc: ChunkCoordinate|
        cc != p.0 && has_key(s, cc) implies #[trigger] value_at(s1, cc) == value_at(s, cc) by {
        let i = choose|i: int| 0 <= i < s.len() && (#[trigger] s[i]).0 == cc;
        assert(s1[i] == s[i]);
        lemma_value_at_entry(s1, i);
        lemma_value_at_entry(s, i);
    }
}

/// Appending an entry under a fresh key keeps the keys distinct, adds
/// exactly that key, and preserves every other key's lookup.
proof fn lemma_entries_push(s: Seq<(ChunkCoordinate, Chunk)>, p: (ChunkCoordinate, Chunk))
    requires
        keys_distinct(s),
        !has_key(s, p.0),
    ensures
        keys_distinct(s.push(p)),
        forall|cc: ChunkCoordinate| #[trigger]
            has_key(s.push(p), cc) <==> (has_key(s, cc) || cc == p.0),
        value_at(s.push(p), p.0) == p.1,
        forall|cc: ChunkCoordinate|
            cc != p.0 && has_key(s, cc) ==> #[trigger] value_at(s.push(p), cc) == value_at(s, cc),
{
    let s1 = s.push(p);
    assert forall|i: int, j: int| 0 <= i < j < s1.len() implies (#[trigger] s1[i]).0
        != (#[trigger] s1[j]).0 by {
        if j == s.len() {
            if s1[i].0 == p.0 {
                assert(s[i].0 == p.0);
                assert(has_key(s, p.0));
            }
        }
    }
    assert forall|cc: ChunkCoordinate| #[trigger]
        has_key(s1, cc) <==> (has_key(s, cc) || cc == p.0) by {
        if has_key(s1, cc) {
            let i = choose|i: int| 0 <= i < s1.len() && (#[trigger] s1[i]).0 == cc;
            if i < s.len() {
                assert(s[i].0 == cc);
            }
        }
        if has_key(s, cc) {
            let i = choose|i: int| 0 <= i < s.len() && (#[trigger] s[i]).0 == cc;
            assert(s1[i].0 == cc);
        }
        if cc == p.0 {
            assert(s1[s.len() as int].0 == cc);
        }
    }
    lemma_value_at_entry(s1, s.len() as int);
    assert forall|cc: ChunkCoordinate|
        cc != p.0 && has_key(s, cc) implies #[trigger] value_at(s1, cc) == value_at(s, cc) by {
        let i = choose|i: int| 0 <= i < s.len() && (#[trigger] s[i]).0 == cc;
        assert(s1[i] == s[i]);
        lemma_value_at_entry(s1, i);
        lemma_value_at_entry(s, i);
    }
}

/// Removing the only occurrence of an element from a duplicate-free
/// sequence removes exactly that element.
proof fn lemma_remove_at_unique(q: Seq<ChunkCoordinate>, i: int, c: ChunkCoordinate)
    requires
        queue_distinct(q),
        0 <= i < q.len(),
        q[i] == c,
    ensures
        queue_distinct(q.remove(i)),
        forall|cc: ChunkCoordinate| #[trigger]
            q.remove(i).contains(cc) <==> (q.contains(cc) && cc != c),
{
    let q1 = q.remove(i);
    q.remove_ensures(i);
    assert forall|a: int, b: int| 0 <= a < b < q1.len() implies q1[a] != q1[b] by {
        assert(q1[a] == (if a < i { q[a] } else { q[a + 1] }));
        assert(q1[b] == (if b < i { q[b] } else { q[b + 1] }));
    }
    assert forall|cc: ChunkCoordinate| #[trigger]
        q1.contains(cc) <==> (q.contains(cc) && cc != c) by {
        if q1.contains(cc) {
            let k = choose|k: int| 0 <= k < q1.len() && q1[k] == cc;
            assert(q1[k] == (if k < i { q[k] } else { q[k + 1] }));
            if k < i {
                assert(q[k] == cc && q[k] != q[i]);
            } else {
                assert(q[k + 1] == cc && q[i] != q[k + 1]);
            }
        }
        if q.contains(cc) && cc != c {
            let k = choose|k: int| 0 <= k < q.len() && q[k] == cc;
            if k < i {
                assert(q1[k] == cc);
            } else {
                assert(k != i);
                assert(q1[k - 1] == cc);
            }
        }
    }
}

/// Whether every entry holds a well-formed chunk filed under its own
/// coordinate.
pub open spec fn entries_wf(s: Seq<(ChunkCoordinate, Chunk)>) -> bool {
    forall|i: int|
        0 <= i < s.len() ==> (#[trigger] s[i]).1.wf() && s[i].1.coord() == s[i].0
}

/// Whether the coordinates of a queue are pairwise distinct.
pub open spec fn queue_distinct(q: Seq<ChunkCoordinate>) -> bool {
    forall|i: int, j: int| 0 <= i < j < q.len() ==> q[i] != q[j]
}

/// The face instances of an association list's chunks, concatenated in
/// storage order.
pub open spec fn spec_aggregate(s: Seq<(ChunkCoordinate, Chunk)>) -> Seq<RawFaceInstance>
    decreases s.len(),
{
    if s.len() == 0 {
        Seq::empty()
    } else {
        spec_aggregate(s.drop_last()) + s.last().1.instances()
    }
}

/// Membership in a sequence grown by one element.
proof fn lemma_push_contains<T>(s: Seq<T>, v: T, c: T)
    ensures
        s.push(v).contains(c) <==> (s.contains(c) || c == v),
{
    if s.push(v).contains(c) {
        let k = choose|k: int| 0 <= k < s.push(v).len() && s.push(v)[k] == c;
        if k < s.len() {
            assert(s[k] == c);
        }
    }
    if s.contains(c) {
        let k = choose|k: int| 0 <= k < s.len() && s[k] == c;
        assert(s.push(v)[k] == c);
    }
    if c == v {
        assert(s.push(v)[s.len() as int] == c);
    }
}

/// A sequence that does not contain an element differs from it at every
/// index.
proof fn lemma_not_contains_index<T>(s: Seq<T>, c: T, i: int)
    requires
        !s.contains(c),
        0 <= i < s.len(),
    ensures
        s[i] != c,
{
    if s[i] == c {
        assert(s.contains(c));
    }
}

/// Membership in a concatenation of two sequences.
proof fn lemma_concat_contains<T>(s1: Seq<T>, s2: Seq<T>, c: T)
    ensures
        (s1 + s2).contains(c) <==> (s1.contains(c) || s2.contains(c)),
{
    if (s1 + s2).contains(c) {
        let k = choose|k: int| 0 <= k < (s1 + s2).len() && (s1 + s2)[k] == c;
        if k < s1.len() {
            assert(s1[k] == c);
        } else {
            assert(s2[k - s1.len()] == c);
        }
    }
    if s1.contains(c) {
        let k = choose|k: int| 0 <= k < s1.len() && s1[k] == c;
        assert((s1 + s2)[k] == c);
    }
    if s2.contains(c) {
        let k = choose|k: int| 0 <= k < s2.len() && s2[k] == c;
        assert((s1 + s2)[s1.len() + k] == c);
    }
}

/// The entries surviving the eviction pass: those within Euclidean
/// distance `radius` of the center, in their original order.
pub open spec fn spec_evicted_entries(
    s: Seq<(ChunkCoordinate, Chunk)>,
    center: ChunkCoordinate,
    radius: int,
) -> Seq<(ChunkCoordinate, Chunk)>
    decreases s.len(),
{
    if s.len() == 0 {
        s
    } else {
        let rest = spec_evicted_entries(s.drop_last(), center, radius);
        if chunk_dist2(s.last().0, center) <= radius * radius {
            rest.push(s.last())
        } else {
            rest
        }
    }
}

/// An entry survives the eviction pass exactly when it was present and
/// lies within the eviction radius.
proof fn lemma_evicted_membership(
    s: Seq<(ChunkCoordinate, Chunk)>,
    center: ChunkCoordinate,
    radius: int,
)
    ensures
        forall|p: (ChunkCoordinate, Chunk)| #[trigger]
            spec_evicted_entries(s, center, radius).contains(p) <==> (s.contains(p)
                && chunk_dist2(p.0, center) <= radius * radius),
    decreases s.len(),
{
    if s.len() > 0 {
        lemma_evicted_membership(s.drop_last(), center, radius);
        let rest = spec_evicted_entries(s.drop_last(), center, radius);
        assert forall|p: (ChunkCoordinate, Chunk)| #[trigger]
            spec_evicted_entries(s, center, radius).contains(p) <==> (s.contains(p)
                && chunk_dist2(p.0, center) <= radius * radius) by {
            lemma_push_contains(s.drop_last(), s.last(), p);
            assert(s.drop_last().push(s.last()) =~= s);
            if chunk_dist2(s.last().0, center) <= radius * radius {
                lemma_push_contains(rest, s.last(), p);
            }
        }
    }
}

/// The eviction pass keeps keys pairwise distinct.
proof fn lemma_evicted_distinct(
    s: Seq<(ChunkCoordinate, Chunk)>,
    center: ChunkCoordinate,
    radius: int,
)
    requires
        keys_distinct(s),
    ensures
        keys_distinct(spec_evicted_entries(s, center, radius)),
    decreases s.len(),
{
    if s.len() > 0 {
        assert(keys_distinct(s.drop_last()));
        lemma_evicted_distinct(s.drop_last(), center, radius);
        lemma_evicted_membership(s.drop_last(), center, radius);
        let rest = spec_evicted_entries(s.drop_last(), center, radius);
        if chunk_dist2(s.last().0, center) <= radius * radius {
            let out = rest.push(s.last());
            assert forall|i: int, j: int| 0 <= i < j < out.len() implies (#[trigger] out[i]).0
                != (#[trigger] out[j]).0 by {
                if j == rest.len() {
                    assert(rest.contains(rest[i]));
                    let k = choose|k: int|
                        0 <= k < s.drop_last().len() && s.drop_last()[k] == rest[i];
                    assert(s[k] == rest[i]);
                    assert(s[s.len() - 1] == s.last());
                }
            }
        }
    }
}

/// Every entry surviving the eviction pass was an entry of the original
/// list, so the entries stay well-formed.
proof fn lemma_evicted_entries_wf(
    s: Seq<(ChunkCoordinate, Chunk)>,
    center: ChunkCoordinate,
    radius: int,
)
    requires
        entries_wf(s),
    ensures
        entries_wf(spec_evicted_entries(s, center, radius)),
{
    lemma_evicted_membership(s, center, radius);
    let out = spec_evicted_entries(s, center, radius);
    assert forall|i: int| 0 <= i < out.len() implies (#[trigger] out[i]).1.wf() && out[i].1.coord()
        == out[i].0 by {
        assert(out.contains(out[i]));
        let k = choose|k: int| 0 <= k < s.len() && s[k] == out[i];
    }
}

/// Key-level reading of the eviction pass: it keeps exactly the keys
/// within the radius, and keeps their chunks unchanged.
proof fn lemma_evicted_key_membership(
    s: Seq<(ChunkCoordinate, Chunk)>,
    center: ChunkCoordinate,
    radius: int,
)
    requires
        keys_distinct(s),
    ensures
        forall|cc: ChunkCoordinate| #[trigger]
            has_key(spec_evicted_entries(s, center, radius), cc) <==> (has_key(s, cc)
                && chunk_dist2(cc, center) <= radius * radius),
        forall|cc: ChunkCoordinate| #[trigger]
            has_key(spec_evicted_entries(s, center, radius), cc) ==> value_at(
                spec_evicted_entries(s, center, radius),
                cc,
            ) == value_at(s, cc),
{
    lemma_evicted_membership(s, center, radius);
    lemma_evicted_distinct(s, center, radius);
    let out = spec_evicted_entries(s, center, radius);
    assert forall|cc: ChunkCoordinate| #[trigger]
        has_key(out, cc) implies (has_key(s, cc) && chunk_dist2(cc, center) <= radius * radius)
        && value_at(out, cc) == value_at(s, cc) by {
        let i = choose|i: int| 0 <= i < out.len() && (#[trigger] out[i]).0 == cc;
        assert(out.contains(out[i]));
        let j = choose|j: int| 0 <= j < s.len() && s[j] == out[i];
        lemma_value_at_entry(out, i);
        lemma_value_at_entry(s, j);
    }
    assert forall|cc: ChunkCoordinate|
        has_key(s, cc) && chunk_dist2(cc, center) <= radius * radius implies #[trigger] has_key(
        out,
        cc,
    ) by {
        let j = choose|j: int| 0 <= j < s.len() && (#[trigger] s[j]).0 == cc;
        assert(s.contains(s[j]));
        assert(out.contains(s[j]));
        let i = choose|i: int| 0 <= i < out.len() && out[i] == s[j];
        assert(out[i].0 == cc);
    }
}

/// Whether a coordinate must be requested: within the streaming square of
/// the cache's center, not materialized, and not in flight.
pub open spec fn needed_coord(w: BoxWorld, c: ChunkCoordinate) -> bool {
    &&& in_square(c, w.center(), w.radius())
    &&& !w.visible_has(c)
    &&& !w.enqueued_has(c)
}

/// The sparse map of currently-materialized chunks around a moving center:
/// decides which chunks are needed or stale and aggregates their face
/// instances.
pub struct BoxWorld {
    visible_chunks: Vec<(ChunkCoordinate, Chunk)>,
    enqueued_chunk: Vec<ChunkCoordinate>,
    current_chunk_coord: ChunkCoordinate,
    has_center: bool,
    render_radius: i64,
    is_dirty: bool,
}

impl BoxWorld {
    /// The visible map as an association list in storage order.
    pub closed spec fn entries(self) -> Seq<(ChunkCoordinate, Chunk)> {
        self.visible_chunks@
    }

    /// The coordinates whose generation is in flight.
    pub closed spec fn queue(self) -> Seq<ChunkCoordinate> {
        self.enqueued_chunk@
    }

    /// The viewer's chunk coordinate, meaningful once `centered()`.
    pub closed spec fn center(self) -> ChunkCoordinate {
        self.current_chunk_coord
    }

    /// Whether a center has been set since construction.
    pub closed spec fn centered(self) -> bool {
        self.has_center
    }

    /// The streaming radius in chunks.
    pub closed spec fn radius(self) -> int {
        self.render_radius as int
    }

    /// Whether the aggregated instance list must be re-pulled.
    pub closed spec fn dirty(self) -> bool {
        self.is_dirty
    }

    /// Whether a chunk is materialized at the given coordinate.
    pub open spec fn visible_has(self, c: ChunkCoordinate) -> bool {
        has_key(self.entries(), c)
    }

    /// The chunk materialized at the given coordinate (meaningful when
    /// `visible_has(c)` and the keys are distinct).
    pub open spec fn chunk_at(self, c: ChunkCoordinate) -> Chunk {
        value_at(self.entries(), c)
    }

    /// Whether the given coordinate's generation is in flight.
    pub open spec fn enqueued_has(self, c: ChunkCoordinate) -> bool {
        self.queue().contains(c)
    }

    /// Cache invariant: unique keys, well-formed chunks under their own
    /// coordinates, a duplicate-free queue disjoint from the visible map,
    /// and bounded radius and center.
    pub open spec fn wf(self) -> bool {
        &&& keys_distinct(self.entries())
        &&& entries_wf(self.entries())
        &&& queue_distinct(self.queue())
        &&& forall|i: int|
            0 <= i < self.queue().len() ==> coord_in_range(#[trigger] self.queue()[i])
        &&& forall|i: int|
            0 <= i < self.queue().len() ==> !self.visible_has(#[trigger] self.queue()[i])
        &&& 1 <= self.radius() <= RADIUS_LIMIT
        &&& (self.centered() ==> center_in_range(self.center()))
    }

    /// An empty cache with the default streaming radius; dirty from the
    /// start so that a first (empty) aggregate is pulled.
    pub fn new() -> (w: BoxWorld)
        ensures
            w.wf(),
            w.entries().len() == 0,
            w.queue().len() == 0,
            !w.centered(),
            w.dirty(),
            w.radius() == RENDER_RADIUS,
    {
        Self::with_radius(RENDER_RADIUS)
    }

    /// An empty cache with the given streaming radius.
    pub fn with_radius(render_radius: i64) -> (w: BoxWorld)
        requires
            1 <= render_radius <= RADIUS_LIMIT,
        ensures
            w.wf(),
            w.entries().len() == 0,
            w.queue().len() == 0,
            !w.centered(),
            w.dirty(),
            w.radius() == render_radius,
    {
        BoxWorld {
            visible_chunks: Vec::new(),
            enqueued_chunk: Vec::new(),
            current_chunk_coord: ChunkCoordinate { x: 0, z: 0 },
            has_center: false,
            render_radius,
            is_dirty: true,
        }
    }

    /// Derive the viewer's chunk from its world position (half-block
    /// units) and remember it; report whether it differs from the chunk of
    /// the previous call.  Nothing else changes: detecting movement is
    /// decoupled from acting on it.
    pub fn update_current_chunk_coord(&mut self, wx: i64, wz: i64) -> (moved: bool)
        requires
            old(self).wf(),
            -WORLD_LIMIT <= wx <= WORLD_LIMIT,
            -WORLD_LIMIT <= wz <= WORLD_LIMIT,
        ensures
            final(self).wf(),
            final(self).centered(),
            final(self).center().x == spec_axis_chunk(wx as int),
            final(self).center().z == spec_axis_chunk(wz as int),
            moved == !(old(self).centered() && old(self).center() == final(self).center()),
            final(self).entries() == old(self).entries(),
            final(self).queue() == old(self).queue(),
            final(self).dirty() == old(self).dirty(),
            final(self).radius() == old(self).radius(),
    {
        let c = get_chunk_coord_from_world_coord(wx, wz);
        let moved = !(self.has_center && self.current_chunk_coord == c);
        self.current_chunk_coord = c;
        self.has_center = true;
        moved
    }

    /// Whether the aggregated instance list must be re-pulled by the
    /// renderer.
    pub fn is_dirty(&self) -> (d: bool)
        ensures
            d == self.dirty(),
    {
        self.is_dirty
    }

    /// Number of materialized chunks.
    pub fn visible_len(&self) -> (n: usize)
        ensures
            n == self.entries().len(),
    {
        self.visible_chunks.len()
    }

    /// Number of coordinates whose generation is in flight.
    pub fn enqueued_len(&self) -> (n: usize)
        ensures
            n == self.queue().len(),
    {
        self.enqueued_chunk.len()
    }

    /// The viewer's chunk coordinate of the last `update_current_chunk_coord`
    /// call (meaningful once one was made).
    pub fn get_current_chunk_coord(&self) -> (c: ChunkCoordinate)
        ensures
            c == self.center(),
    {
        self.current_chunk_coord
    }

    /// The materialized chunk at the given coordinate, if any.
    pub fn get_chunk(&self, c: ChunkCoordinate) -> (r: Option<&Chunk>)
        requires
            self.wf(),
        ensures
            r matches Some(ch) ==> self.visible_has(c) && *ch == self.chunk_at(c),
            r is None ==> !self.visible_has(c),
    {
        let found = self.find_visible_index(c);
        match found {
            Some(i) => {
                proof {
                    lemma_value_at_entry(self.entries(), i as int);
                }
                Some(&self.visible_chunks[i].1)
            },
            None => None,
        }
    }

    /// Whether a chunk is materialized at the given coordinate.
    pub fn visible_contains_key(&self, c: ChunkCoordinate) -> (r: bool)
        ensures
            r == self.visible_has(c),
    {
        let n = self.visible_chunks.len();
        let mut i: usize = 0;
        while i < n
            invariant
                n == self.entries().len(),
                i <= n,
                forall|j: int| 0 <= j < i ==> (#[trigger] self.entries()[j]).0 != c,
            decreases n - i,
        {
            if self.visible_chunks[i].0 == c {
                return true;
            }
            i += 1;
        }
        false
    }

    /// The coordinates that must be requested: the Chebyshev square of the
    /// streaming radius around the current center, minus the coordinates
    /// already materialized, minus the coordinates already in flight.  The
    /// set difference is the core deduplication guarantee: a coordinate
    /// already materialized or already in flight is never re-requested.
    pub fn needed_chunk_coord(&self) -> (need: Vec<ChunkCoordinate>)
        requires
            self.wf(),
            self.centered(),
        ensures
            forall|c: ChunkCoordinate| #[trigger] need@.contains(c) <==> needed_coord(*self, c),
            queue_distinct(need@),
            forall|i: int| 0 <= i < need@.len() ==> coord_in_range(#[trigger] need@[i]),
    {
        let cx = self.current_chunk_coord.x as i64;
        let cz = self.current_chunk_coord.z as i64;
        let r = self.render_radius;
        let mut need: Vec<ChunkCoordinate> = Vec::new();
        let mut dx: i64 = -r;
        while dx <= r
            invariant
                self.wf(),
                self.centered(),
                cx == self.center().x,
                cz == self.center().z,
                r == self.radius(),
                -r <= dx <= r + 1,
                forall|c: ChunkCoordinate| #[trigger]
                    need@.contains(c) <==> (needed_coord(*self, c) && c.x < cx + dx),
                queue_distinct(need@),
                forall|i: int| 0 <= i < need@.len() ==> coord_in_range(#[trigger] need@[i]),
            decreases r + 1 - dx,
        {
            let mut dz: i64 = -r;
            while dz <= r
                invariant
                    self.wf(),
                    self.centered(),
                    cx == self.center().x,
                    cz == self.center().z,
                    r == self.radius(),
                    -r <= dx <= r,
                    -r <= dz <= r + 1,
                    forall|c: ChunkCoordinate| #[trigger]
                        need@.contains(c) <==> (needed_coord(*self, c) && (c.x < cx + dx || (c.x
                            == cx + dx && c.z < cz + dz))),
                    queue_distinct(need@),
                    forall|i: int| 0 <= i < need@.len() ==> coord_in_range(#[trigger] need@[i]),
                decreases r + 1 - dz,
            {
                let c = ChunkCoordinate { x: (cx + dx) as i32, z: (cz + dz) as i32 };
                proof {
                    assert(c.x == cx + dx && c.z == cz + dz);
                    assert(in_square(c, self.center(), self.radius()));
                }
                let ghost pre_need = need@;
                let wanted = !self.visible_contains_key(c) && !self.enqueued_contains(c);
                if wanted {
                    proof {
                        assert(needed_coord(*self, c));
                        assert(!need@.contains(c));
                        assert forall|i: int| 0 <= i < need@.len() implies need@[i] != c by {
                            lemma_not_contains_index(need@, c, i);
                        }
                    }
                    need.push(c);
                }
                proof {
                    assert forall|cc: ChunkCoordinate| #[trigger]
                        need@.contains(cc) <==> (needed_coord(*self, cc) && (cc.x < cx + dx || (
                        cc.x == cx + dx && cc.z < cz + dz + 1))) by {
                        if wanted {
                            lemma_push_contains(pre_need, c, cc);
                        }
                        if needed_coord(*self, cc) && cc.x == cx + dx && cc.z == cz + dz {
                            assert(cc == c);
                        }
                    }
                }
                dz += 1;
            }
            dx += 1;
        }
        need
    }

    /// Mark each coordinate that is not already materialized or in flight
    /// as in flight; the returned list is exactly what the caller must
    /// submit to the generation scheduler, in order.  A coordinate already
    /// tracked — visible or enqueued — is never submitted.
    pub fn enqueue(&mut self, coordinates: &Vec<ChunkCoordinate>) -> (submitted: Vec<
        ChunkCoordinate>)
        requires
            old(self).wf(),
            forall|i: int|
                0 <= i < coordinates@.len() ==> coord_in_range(#[trigger] coordinates@[i]),
        ensures
            final(self).wf(),
            forall|c: ChunkCoordinate| #[trigger]
                submitted@.contains(c) <==> (coordinates@.contains(c) && !old(self).visible_has(c)
                    && !old(self).enqueued_has(c)),
            queue_distinct(submitted@),
            forall|c: ChunkCoordinate| #[trigger]
                final(self).enqueued_has(c) <==> (old(self).enqueued_has(c)
                    || submitted@.contains(c)),
            final(self).entries() == old(self).entries(),
            final(self).center() == old(self).center(),
            final(self).centered() == old(self).centered(),
            final(self).dirty() == old(self).dirty(),
            final(self).radius() == old(self).radius(),
    {
        let n = coordinates.len();
        let mut submitted: Vec<ChunkCoordinate> = Vec::new();
        let mut i: usize = 0;
        while i < n
            invariant
                n == coordinates@.len(),
                i <= n,
                forall|j: int|
                    0 <= j < coordinates@.len() ==> coord_in_range(#[trigger] coordinates@[j]),
                self.wf(),
                forall|c: ChunkCoordinate| #[trigger]
                    submitted@.contains(c) <==> (coordinates@.take(i as int).contains(c) && !old(
                        self,
                    ).visible_has(c) && !old(self).enqueued_has(c)),
                queue_distinct(submitted@),
                forall|c: ChunkCoordinate| #[trigger]
                    self.enqueued_has(c) <==> (old(self).enqueued_has(c) || submitted@.contains(
                        c,
                    )),
                self.entries() == old(self).entries(),
                self.center() == old(self).center(),
                self.centered() == old(self).centered(),
                self.dirty() == old(self).dirty(),
                self.radius() == old(self).radius(),
            decreases n - i,
        {
            let c = coordinates[i];
            let ghost pre_self = *self;
            let ghost pre_queue = self.queue();
            let ghost pre_submitted = submitted@;
            let accepted = !self.visible_contains_key(c) && !self.enqueued_contains(c);
            if accepted {
                proof {
                    assert(coord_in_range(coordinates@[i as int]));
                    assert forall|j: int| 0 <= j < submitted@.len() implies submitted@[j] != c by {
                        lemma_not_contains_index(submitted@, c, j);
                    }
                    assert forall|j: int| 0 <= j < self.queue().len() implies self.queue()[j]
                        != c by {
                        lemma_not_contains_index(self.queue(), c, j);
                    }
                }
                self.enqueued_chunk.push(c);
                submitted.push(c);
            }
            proof {
                assert(coordinates@.take(i as int + 1) =~= coordinates@.take(i as int).push(
                    coordinates@[i as int]));
                assert forall|cc: ChunkCoordinate| #[trigger]
                    submitted@.contains(cc) <==> (coordinates@.take(i as int + 1).contains(cc)
                    && !old(self).visible_has(cc) && !old(self).enqueued_has(cc)) by {
                    lemma_push_contains(coordinates@.take(i as int), coordinates@[i as int], cc);
                    if accepted {
                        lemma_push_contains(pre_submitted, c, cc);
                    } else {
                        if cc == c && !old(self).visible_has(cc) && !old(self).enqueued_has(cc) {
                            assert(pre_submitted.contains(cc));
                        }
                    }
                }
                assert forall|cc: ChunkCoordinate| #[trigger]
                    self.enqueued_has(cc) <==> (old(self).enqueued_has(cc) || submitted@.contains(
                    cc,
                )) by {
                    assert(pre_self.enqueued_has(cc) <==> (old(self).enqueued_has(cc)
                        || pre_submitted.contains(cc)));
                    if accepted {
                        lemma_push_contains(pre_queue, c, cc);
                        lemma_push_contains(pre_submitted, c, cc);
                    }
                }
            }
            i += 1;
        }
        proof {
            assert(coordinates@.take(n as int) =~= coordinates@);
        }
        submitted
    }

    /// Compute the needed coordinates and mark them in flight; the
    /// returned list is what the caller hands to the generation scheduler.
    pub fn enqueue_work(&mut self) -> (submitted: Vec<ChunkCoordinate>)
        requires
            old(self).wf(),
            old(self).centered(),
        ensures
            final(self).wf(),
            forall|c: ChunkCoordinate| #[trigger]
                submitted@.contains(c) <==> needed_coord(*old(self), c),
            queue_distinct(submitted@),
            forall|c: ChunkCoordinate| #[trigger]
                final(self).enqueued_has(c) <==> (old(self).enqueued_has(c)
                    || submitted@.contains(c)),
            final(self).entries() == old(self).entries(),
            final(self).center() == old(self).center(),
            final(self).centered() == old(self).centered(),
            final(self).dirty() == old(self).dirty(),
            final(self).radius() == old(self).radius(),
    {
        let needed = self.needed_chunk_coord();
        self.enqueue(&needed)
    }

    /// Whether the given coordinate's generation is in flight.
    pub fn enqueued_contains(&self, c: ChunkCoordinate) -> (r: bool)
        ensures
            r == self.enqueued_has(c),
    {
        let n = self.enqueued_chunk.len();
        let mut i: usize = 0;
        while i < n
            invariant
                n == self.queue().len(),
                i <= n,
                forall|j: int| 0 <= j < i ==> (#[trigger] self.queue()[j]) != c,
            decreases n - i,
        {
            if self.enqueued_chunk[i] == c {
                proof {
                    assert(self.queue()[i as int] == c);
                }
                return true;
            }
            i += 1;
        }
        proof {
            if self.enqueued_has(c) {
                let k = choose|k: int| 0 <= k < self.queue().len() && self.queue()[k] == c;
                assert(self.queue()[k] != c);
            }
        }
        false
    }

    /// Index of the entry materialized at the given coordinate, if any.
    fn find_visible_index(&self, c: ChunkCoordinate) -> (r: Option<usize>)
        ensures
            r matches Some(i) ==> i < self.entries().len() && self.entries()[i as int].0 == c,
            r is None ==> !self.visible_has(c),
    {
        let n = self.visible_chunks.len();
        let mut i: usize = 0;
        while i < n
            invariant
                n == self.entries().len(),
                i <= n,
                forall|j: int| 0 <= j < i ==> (#[trigger] self.entries()[j]).0 != c,
            decreases n - i,
        {
            if self.visible_chunks[i].0 == c {
                return Some(i);
            }
            i += 1;
        }
        None
    }

    /// Take the given coordinate out of the enqueued set, if it is there.
    fn remove_enqueued(&mut self, c: ChunkCoordinate)
        requires
            old(self).wf(),
        ensures
            final(self).wf(),
            forall|cc: ChunkCoordinate| #[trigger]
                final(self).enqueued_has(cc) <==> (old(self).enqueued_has(cc) && cc != c),
            final(self).entries() == old(self).entries(),
            final(self).center() == old(self).center(),
            final(self).centered() == old(self).centered(),
            final(self).dirty() == old(self).dirty(),
            final(self).radius() == old(self).radius(),
    {
        let n = self.enqueued_chunk.len();
        let mut i: usize = 0;
        while i < n
            invariant
                self == old(self),
                self.wf(),
                n == self.queue().len(),
                i <= n,
                forall|j: int| 0 <= j < i ==> (#[trigger] self.queue()[j]) != c,
            decreases n - i,
        {
            if self.enqueued_chunk[i] == c {
                let ghost q0 = self.queue();
                self.enqueued_chunk.remove(i);
                proof {
                    lemma_remove_at_unique(q0, i as int, c);
                    assert(self.queue() == q0.remove(i as int));
                    assert forall|cc: ChunkCoordinate| #[trigger]
                        self.enqueued_has(cc) <==> (old(self).enqueued_has(cc) && cc != c) by {
                        assert(self.queue().contains(cc) == (q0.contains(cc) && cc != c));
                    }
                    assert forall|j: int|
                        0 <= j < self.queue().len() implies coord_in_range(
                        #[trigger] self.queue()[j],
                    ) && !self.visible_has(self.queue()[j]) by {
                        assert(self.queue().contains(self.queue()[j]));
                        let k = choose|k: int| 0 <= k < q0.len() && q0[k] == self.queue()[j];
                        assert(coord_in_range(old(self).queue()[k]));
                        assert(!old(self).visible_has(old(self).queue()[k]));
                    }
                }
                return ;
            }
            i += 1;
        }
        proof {
            assert forall|cc: ChunkCoordinate| #[trigger]
                self.enqueued_has(cc) implies cc != c by {
                let k = choose|k: int| 0 <= k < self.queue().len() && self.queue()[k] == cc;
            }
        }
    }

    /// Merge a finished background construction into the cache: the
    /// coordinate leaves the enqueued set, the chunk becomes visible under
    /// it, and the aggregated instance list becomes stale.  A completion
    /// for a coordinate that was evicted while in flight is simply
    /// inserted; the next distance check removes it again.
    pub fn insert_chunk(&mut self, coord: ChunkCoordinate, chunk: Chunk)
        requires
            old(self).wf(),
            chunk.wf(),
            chunk.coord() == coord,
        ensures
            final(self).wf(),
            forall|cc: ChunkCoordinate| #[trigger]
                final(self).visible_has(cc) <==> (old(self).visible_has(cc) || cc == coord),
            final(self).chunk_at(coord) == chunk,
            forall|cc: ChunkCoordinate|
                cc != coord && old(self).visible_has(cc) ==> #[trigger] final(self).chunk_at(cc)
                    == old(self).chunk_at(cc),
            forall|cc: ChunkCoordinate| #[trigger]
                final(self).enqueued_has(cc) <==> (old(self).enqueued_has(cc) && cc != coord),
            final(self).dirty(),
            final(self).center() == old(self).center(),
            final(self).centered() == old(self).centered(),
            final(self).radius() == old(self).radius(),
    {
        self.remove_enqueued(coord);
        let ghost mid = *self;
        let ghost e0 = mid.entries();
        let found = self.find_visible_index(coord);
        match found {
            Some(i) => {
                self.visible_chunks[i] = (coord, chunk);
                proof {
                    lemma_entries_update(e0, i as int, (coord, chunk));
                }
            },
            None => {
                self.visible_chunks.push((coord, chunk));
                proof {
                    lemma_entries_push(e0, (coord, chunk));
                }
            },
        }
        self.is_dirty = true;
        proof {
            assert(entries_wf(self.entries())) by {
                assert forall|j: int|
                    0 <= j < self.entries().len() implies (#[trigger] self.entries()[j]).1.wf()
                    && self.entries()[j].1.coord() == self.entries()[j].0 by {
                    match found {
                        Some(i) => {
                            if j != i as int {
                                assert(self.entries()[j] == e0[j]);
                            }
                        },
                        None => {
                            if j < e0.len() {
                                assert(self.entries()[j] == e0[j]);
                            }
                        },
                    }
                }
            }
            assert forall|j: int|
                0 <= j < self.queue().len() implies !self.visible_has(
                #[trigger] self.queue()[j],
            ) by {
                assert(self.queue().contains(self.queue()[j]));
                assert(mid.enqueued_has(self.queue()[j]));
                assert(self.queue()[j] != coord);
                assert(!mid.visible_has(self.queue()[j]));
            }
            assert(self.queue() == mid.queue());
            assert forall|cc: ChunkCoordinate| #[trigger]
                self.enqueued_has(cc) <==> (old(self).enqueued_has(cc) && cc != coord) by {
                assert(mid.enqueued_has(cc) <==> (old(self).enqueued_has(cc) && cc != coord));
            }
        }
    }

    /// Remove every materialized chunk whose Euclidean chunk-distance from
    /// the current center exceeds the streaming radius, and mark the
    /// aggregate stale if anything left.  Runs before the needed set is
    /// recomputed, so that a freshly-evicted slot still in range is
    /// re-requested.
    pub fn evict_far_chunks(&mut self)
        requires
            old(self).wf(),
            old(self).centered(),
        ensures
            final(self).wf(),
            final(self).entries() == spec_evicted_entries(
                old(self).entries(),
                old(self).center(),
                old(self).radius(),
            ),
            forall|cc: ChunkCoordinate| #[trigger]
                final(self).visible_has(cc) <==> (old(self).visible_has(cc) && chunk_dist2(
                    cc,
                    old(self).center(),
                ) <= old(self).radius() * old(self).radius()),
            forall|cc: ChunkCoordinate| #[trigger]
                final(self).visible_has(cc) ==> final(self).chunk_at(cc) == old(self).chunk_at(
                    cc,
                ),
            final(self).queue() == old(self).queue(),
            final(self).center() == old(self).center(),
            final(self).centered() == old(self).centered(),
            final(self).radius() == old(self).radius(),
            final(self).dirty() == (old(self).dirty() || final(self).entries().len() != old(
                self,
            ).entries().len()),
    {
        let ghost g0 = self.entries();
        let ghost gcenter = self.center();
        let ghost grad = self.radius();
        let before = self.visible_chunks.len();
        let center = self.current_chunk_coord;
        let radius = self.render_radius;
        let mut i: usize = 0;
        let ghost mut k: int = 0;
        while i < self.visible_chunks.len()
            invariant
                old(self).wf(),
                old(self).centered(),
                g0 == old(self).entries(),
                gcenter == old(self).center(),
                grad == old(self).radius(),
                center == gcenter,
                radius as int == grad,
                0 <= k <= g0.len(),
                self.entries() == spec_evicted_entries(g0.take(k), gcenter, grad) + g0.skip(k),
                i as int == spec_evicted_entries(g0.take(k), gcenter, grad).len(),
                self.queue() == old(self).queue(),
                self.center() == old(self).center(),
                self.centered() == old(self).centered(),
                self.radius() == old(self).radius(),
                self.dirty() == old(self).dirty(),
            decreases self.visible_chunks.len() - i,
        {
            proof {
                assert(self.entries()[i as int] == g0.skip(k)[0]);
                assert(g0.skip(k)[0] == g0[k]);
                assert(g0.take(k + 1).drop_last() =~= g0.take(k));
                assert(g0.take(k + 1).last() == g0[k]);
            }
            let c = self.visible_chunks[i].0;
            proof {
                assert(coord_in_range(c)) by {
                    assert(g0[k].1.wf() && g0[k].1.coord() == g0[k].0);
                }
            }
            if chunk_distance_exceeds(c, center, radius) {
                let ghost pre = self.entries();
                self.visible_chunks.remove(i);
                proof {
                    pre.remove_ensures(i as int);
                    assert(self.entries() =~= spec_evicted_entries(g0.take(k + 1), gcenter, grad)
                        + g0.skip(k + 1));
                    k = k + 1;
                }
            } else {
                proof {
                    assert(spec_evicted_entries(g0.take(k + 1), gcenter, grad)
                        == spec_evicted_entries(g0.take(k), gcenter, grad).push(g0[k]));
                    assert(self.entries() =~= spec_evicted_entries(g0.take(k + 1), gcenter, grad)
                        + g0.skip(k + 1));
                    k = k + 1;
                }
                i += 1;
            }
        }
        proof {
            assert(g0.skip(k).len() == 0);
            assert(k == g0.len());
            assert(g0.take(k) =~= g0);
            assert(self.entries() =~= spec_evicted_entries(g0, gcenter, grad));
        }
        if self.visible_chunks.len() != before {
            self.is_dirty = true;
        }
        proof {
            lemma_evicted_key_membership(g0, gcenter, grad);
            lemma_evicted_distinct(g0, gcenter, grad);
            lemma_evicted_entries_wf(g0, gcenter, grad);
            assert forall|j: int|
                0 <= j < self.queue().len() implies !self.visible_has(
                #[trigger] self.queue()[j],
            ) by {
                assert(!old(self).visible_has(old(self).queue()[j]));
            }
        }
    }

    /// The aggregated face-instance list: every visible chunk's cached
    /// instances, concatenated in storage order.
    pub fn get_raw_face_instances(&self) -> (v: Vec<RawFaceInstance>)
        ensures
            v@ == spec_aggregate(self.entries()),
    {
        let mut v: Vec<RawFaceInstance> = Vec::new();
        let n = self.visible_chunks.len();
        let mut i: usize = 0;
        while i < n
            invariant
                n == self.entries().len(),
                i <= n,
                v@ == spec_aggregate(self.entries().take(i as int)),
            decreases n - i,
        {
            let insts = self.visible_chunks[i].1.get_raw_face_instances();
            let m = insts.len();
            let ghost pre = v@;
            let mut j: usize = 0;
            while j < m
                invariant
                    n == self.entries().len(),
                    i < n,
                    j <= m,
                    m == insts@.len(),
                    insts@ == self.entries()[i as int].1.instances(),
                    v@ == pre + insts@.take(j as int),
                decreases m - j,
            {
                v.push(insts[j]);
                proof {
                    assert(insts@.take(j as int + 1) =~= insts@.take(j as int).push(
                        insts@[j as int]));
                    assert(v@ =~= pre + insts@.take(j as int + 1));
                }
                j += 1;
            }
            proof {
                assert(insts@.take(m as int) =~= insts@);
                assert(self.entries().take(i as int + 1).drop_last() =~= self.entries().take(
                    i as int));
                assert(self.entries().take(i as int + 1).last() == self.entries()[i as int]);
                assert(v@ == spec_aggregate(self.entries().take(i as int + 1)));
            }
            i += 1;
        }
        proof {
            assert(self.entries().take(n as int) =~= self.entries());
        }
        v
    }

    /// Number of face instances the aggregation currently yields.
    pub fn get_raw_face_instances_len(&self) -> (n: usize)
        ensures
            n == spec_aggregate(self.entries()).len(),
    {
        self.get_raw_face_instances().len()
    }

    /// Pull the aggregated instance list and clear the dirty flag: the
    /// caller must treat the list as fully replacing whatever it held.
    pub fn aggregate_instances(&mut self) -> (v: Vec<RawFaceInstance>)
        requires
            old(self).wf(),
        ensures
            final(self).wf(),
            v@ == spec_aggregate(old(self).entries()),
            final(self).entries() == old(self).entries(),
            final(self).queue() == old(self).queue(),
            final(self).center() == old(self).center(),
            final(self).centered() == old(self).centered(),
            final(self).radius() == old(self).radius(),
            !final(self).dirty(),
    {
        let v = self.get_raw_face_instances();
        self.is_dirty = false;
        v
    }

    /// Per-tick refresh of the renderable state: evict far chunks, rebuild
    /// the aggregated instance list, and clear the dirty flag.
    pub fn update_blocks(&mut self) -> (v: Vec<RawFaceInstance>)
        requires
            old(self).wf(),
            old(self).centered(),
        ensures
            final(self).wf(),
            final(self).entries() == spec_evicted_entries(
                old(self).entries(),
                old(self).center(),
                old(self).radius(),
            ),
            forall|cc: ChunkCoordinate| #[trigger]
                final(self).visible_has(cc) <==> (old(self).visible_has(cc) && chunk_dist2(
                    cc,
                    old(self).center(),
                ) <= old(self).radius() * old(self).radius()),
            forall|cc: ChunkCoordinate| #[trigger]
                final(self).visible_has(cc) ==> final(self).chunk_at(cc) == old(self).chunk_at(
                    cc,
                ),
            v@ == spec_aggregate(final(self).entries()),
            !final(self).dirty(),
            final(self).queue() == old(self).queue(),
            final(self).center() == old(self).center(),
            final(self).centered() == old(self).centered(),
            final(self).radius() == old(self).radius(),
    {
        self.evict_far_chunks();
        let ghost mid = *self;
        let v = self.aggregate_instances();
        proof {
            assert(self.entries() == mid.entries());
            assert forall|cc: ChunkCoordinate| #[trigger]
                self.visible_has(cc) <==> (old(self).visible_has(cc) && chunk_dist2(
                cc,
                old(self).center(),
            ) <= old(self).radius() * old(self).radius()) by {
                assert(mid.visible_has(cc) <==> (old(self).visible_has(cc) && chunk_dist2(
                    cc,
                    old(self).center(),
                ) <= old(self).radius() * old(self).radius()));
            }
            assert forall|cc: ChunkCoordinate| #[trigger]
                self.visible_has(cc) implies self.chunk_at(cc) == old(self).chunk_at(cc) by {
                assert(mid.visible_has(cc));
                assert(mid.chunk_at(cc) == old(self).chunk_at(cc));
            }
        }
        v
    }
}

/// Deduplication across a whole streaming session: in a well-formed cache
/// the needed set — what `enqueue_work` submits to the scheduler — never
/// holds a coordinate that is already materialized or already in flight,
/// and the two tracked sets never overlap.
pub proof fn lemma_dedup(w: BoxWorld, c: ChunkCoordinate)
    requires
        w.wf(),
    ensures
        needed_coord(w, c) ==> !w.visible_has(c) && !w.enqueued_has(c),
        w.enqueued_has(c) ==> !w.visible_has(c),
{
    if w.enqueued_has(c) {
        let k = choose|k: int| 0 <= k < w.queue().len() && w.queue()[k] == c;
        assert(!w.visible_has(w.queue()[k]));
    }
}

/// Coverage after a streaming tick: starting from a settled cache (no
/// generation in flight), evicting far chunks and then enqueueing the
/// needed set leaves the visible and enqueued coordinates together
/// covering exactly the streaming square around the center.  The
/// hypotheses on `w1` and `w2` are the postconditions of
/// `evict_far_chunks` and `enqueue_work`.
pub proof fn lemma_tick_coverage(
    w0: BoxWorld,
    w1: BoxWorld,
    w2: BoxWorld,
    submitted: Seq<ChunkCoordinate>,
)
    requires
        w0.wf(),
        w0.centered(),
        w0.queue().len() == 0,
        forall|cc: ChunkCoordinate| #[trigger]
            w1.visible_has(cc) <==> (w0.visible_has(cc) && chunk_dist2(cc, w0.center())
                <= w0.radius() * w0.radius()),
        w1.queue() == w0.queue(),
        w1.center() == w0.center(),
        w1.centered() == w0.centered(),
        w1.radius() == w0.radius(),
        forall|cc: ChunkCoordinate| #[trigger] submitted.contains(cc) <==> needed_coord(w1, cc),
        forall|cc: ChunkCoordinate| #[trigger]
            w2.enqueued_has(cc) <==> (w1.enqueued_has(cc) || submitted.contains(cc)),
        w2.entries() == w1.entries(),
    ensures
        forall|cc: ChunkCoordinate|
            (#[trigger] w2.visible_has(cc) || w2.enqueued_has(cc)) <==> in_square(
                cc,
                w0.center(),
                w0.radius(),
            ),
{
    assert forall|cc: ChunkCoordinate|
        (#[trigger] w2.visible_has(cc) || w2.enqueued_has(cc)) <==> in_square(
            cc,
            w0.center(),
            w0.radius(),
        ) by {
        assert(w2.visible_has(cc) == w1.visible_has(cc));
        if w1.visible_has(cc) {
            lemma_euclid_within_square(cc, w0.center(), w0.radius());
        }
    }
}

/// Completing an in-flight coordinate moves it from the enqueued set to
/// the visible map and so preserves square coverage.  The hypotheses on
/// `w2` are the postconditions of `insert_chunk`.
pub proof fn lemma_completion_preserves_coverage(
    w1: BoxWorld,
    coord: ChunkCoordinate,
    w2: BoxWorld,
    center: ChunkCoordinate,
    radius: int,
)
    requires
        forall|cc: ChunkCoordinate|
            (#[trigger] w1.visible_has(cc) || w1.enqueued_has(cc)) <==> in_square(
                cc,
                center,
                radius,
            ),
        w1.enqueued_has(coord),
        forall|cc: ChunkCoordinate| #[trigger]
            w2.visible_has(cc) <==> (w1.visible_has(cc) || cc == coord),
        forall|cc: ChunkCoordinate| #[trigger]
            w2.enqueued_has(cc) <==> (w1.enqueued_has(cc) && cc != coord),
    ensures
        forall|cc: ChunkCoordinate|
            (#[trigger] w2.visible_has(cc) || w2.enqueued_has(cc)) <==> in_square(
                cc,
                center,
                radius,
            ),
{
}

/// Once the tick has settled — nothing left in flight — square coverage
/// means the visible map alone covers the square.
pub proof fn lemma_settled_coverage(w: BoxWorld, center: ChunkCoordinate, radius: int)
    requires
        forall|cc: ChunkCoordinate|
            (#[trigger] w.visible_has(cc) || w.enqueued_has(cc)) <==> in_square(
                cc,
                center,
                radius,
            ),
        w.queue().len() == 0,
    ensures
        forall|cc: ChunkCoordinate| #[trigger] w.visible_has(cc) <==> in_square(cc, center, radius),
{
}

/// Idempotent aggregation: pulling the aggregated instance list twice
/// with no intervening mutation yields identical lists, and the dirty
/// flag is already clear after the first pull.  The hypotheses are the
/// postconditions of two consecutive `aggregate_instances` calls.
pub proof fn lemma_aggregate_idempotent(
    w0: BoxWorld,
    r1: Seq<RawFaceInstance>,
    w1: BoxWorld,
    r2: Seq<RawFaceInstance>,
    w2: BoxWorld,
)
    requires
        r1 == spec_aggregate(w0.entries()),
        w1.entries() == w0.entries(),
        !w1.dirty(),
        r2 == spec_aggregate(w1.entries()),
        w2.entries() == w1.entries(),
    ensures
        r1 == r2,
        !w1.dirty(),
{
}

} // verus!
