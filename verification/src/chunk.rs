//! Chunks: fixed-size 3D grids of optional blocks, with face culling and
//! face-instance construction.
//!
//! A chunk is constructed fully formed — block fill, face computation and
//! instance list in one pass — and is immutable afterwards.  The block grid
//! is one flat arena of `BLOCKS_PER_CHUNK` cells indexed by
//! `(x * CHUNK_VERTICAL_BLOCKS + y) * CHUNK_SIDE_BLOCKS + z`, iterated in
//! `(x, y, z)` order.
//!
//! Face culling: a face of an occupied cell is exposed exactly when the
//! neighbouring cell in that direction is out of the chunk's bounds or holds
//! no block.  Chunk-boundary faces are therefore always drawn; there is no
//! inter-chunk occlusion here, by design.

use vstd::prelude::*;

use crate::block::{spec_face_normal, spec_texture_pos, Block, BlockType, RawFaceInstance};
use crate::config::{BLOCKS_PER_CHUNK, BLOCK_EXTENT, BLOCK_HALF_EXTENT, CHUNK_HALF_SIDE_EXTENT,
    CHUNK_HALF_VERTICAL_EXTENT, CHUNK_SIDE_BLOCKS, CHUNK_VERTICAL_BLOCKS};
use crate::coords::{coord_in_range, get_world_coord_from_chunk_coord, spec_axis_anchor,
    ChunkCoordinate};
use crate::face::{Face, FaceSet};

verus! {

/// Linear index of a cell in the flat block arena.
pub open spec fn grid_index(x: int, y: int, z: int) -> int {
    (x * CHUNK_VERTICAL_BLOCKS + y) * CHUNK_SIDE_BLOCKS + z
}

/// Cell coordinates addressed by a linear index, x part.
pub open spec fn idx_x(i: int) -> int {
    i / ((CHUNK_VERTICAL_BLOCKS * CHUNK_SIDE_BLOCKS) as int)
}

/// Cell coordinates addressed by a linear index, y part.
pub open spec fn idx_y(i: int) -> int {
    (i % ((CHUNK_VERTICAL_BLOCKS * CHUNK_SIDE_BLOCKS) as int)) / (CHUNK_SIDE_BLOCKS as int)
}

/// Cell coordinates addressed by a linear index, z part.
pub open spec fn idx_z(i: int) -> int {
    (i % ((CHUNK_VERTICAL_BLOCKS * CHUNK_SIDE_BLOCKS) as int)) % (CHUNK_SIDE_BLOCKS as int)
}

/// Whether `(x, y, z)` addresses a cell of the grid.
pub open spec fn cell_in_bounds(x: int, y: int, z: int) -> bool {
    &&& 0 <= x < CHUNK_SIDE_BLOCKS
    &&& 0 <= y < CHUNK_VERTICAL_BLOCKS
    &&& 0 <= z < CHUNK_SIDE_BLOCKS
}

/// Whether the cell `(x, y, z)` is in bounds and holds a block.
pub open spec fn cell_occupied(g: Seq<Option<Block>>, x: int, y: int, z: int) -> bool {
    cell_in_bounds(x, y, z) && g[grid_index(x, y, z)] is Some
}

/// Whether the given face of the cell `(x, y, z)` borders empty space: the
/// neighbouring cell in its outward direction is out of bounds or empty.
pub open spec fn face_exposed(g: Seq<Option<Block>>, x: int, y: int, z: int, f: Face) -> bool {
    let n = spec_face_normal(f);
    !cell_occupied(g, x + n.0, y + n.1, z + n.2)
}

/// The set of exposed faces of the cell `(x, y, z)`.
pub open spec fn spec_exposure(g: Seq<Option<Block>>, x: int, y: int, z: int) -> FaceSet {
    FaceSet {
        right: face_exposed(g, x, y, z, Face::Right),
        left: face_exposed(g, x, y, z, Face::Left),
        top: face_exposed(g, x, y, z, Face::Top),
        bottom: face_exposed(g, x, y, z, Face::Bottom),
        front: face_exposed(g, x, y, z, Face::Front),
        back: face_exposed(g, x, y, z, Face::Back),
    }
}

/// Whether the block of every occupied cell carries exactly its exposure
/// set, at linear index `i`.
pub open spec fn faces_ok_at(g: Seq<Option<Block>>, i: int) -> bool {
    g[i] matches Some(b) ==> b.faces == spec_exposure(g, idx_x(i), idx_y(i), idx_z(i))
}

/// Whether the cells at linear index `j` of two grids agree on occupancy
/// and block type (the face sets may differ).
pub open spec fn cell_kind_same(g1: Seq<Option<Block>>, g2: Seq<Option<Block>>, j: int) -> bool {
    &&& (g1[j] is Some <==> g2[j] is Some)
    &&& (g1[j] is Some ==> g1[j]->Some_0.block_type == g2[j]->Some_0.block_type)
}

/// Whether every block of the grid is of the one type the fill policy
/// places.
pub open spec fn grid_all_dirt(g: Seq<Option<Block>>) -> bool {
    forall|i: int|
        0 <= i < g.len() ==> (#[trigger] g[i] matches Some(b) ==> b.block_type
            == BlockType::Dirt)
}

/// World-space centre (half-block units) of the cell `(x, y, z)` of a chunk
/// anchored at coordinate `c`: the grid is centred on the chunk's anchor
/// along each axis.
pub open spec fn spec_block_centre(c: ChunkCoordinate, x: int, y: int, z: int) -> (int, int, int) {
    (
        spec_axis_anchor(c.x as int) - CHUNK_HALF_SIDE_EXTENT + BLOCK_HALF_EXTENT + BLOCK_EXTENT
            * x,
        -CHUNK_HALF_VERTICAL_EXTENT + BLOCK_HALF_EXTENT + BLOCK_EXTENT * y,
        spec_axis_anchor(c.z as int) - CHUNK_HALF_SIDE_EXTENT + BLOCK_HALF_EXTENT + BLOCK_EXTENT
            * z,
    )
}

/// The face instance emitted for face `f` of the occupied cell `(x, y, z)`.
pub open spec fn spec_cell_instance(
    g: Seq<Option<Block>>,
    c: ChunkCoordinate,
    x: int,
    y: int,
    z: int,
    f: Face,
) -> RawFaceInstance {
    let centre = spec_block_centre(c, x, y, z);
    let n = spec_face_normal(f);
    let t = g[grid_index(x, y, z)]->Some_0.block_type;
    RawFaceInstance {
        face: f,
        x: (centre.0 + BLOCK_HALF_EXTENT * n.0) as i64,
        y: (centre.1 + BLOCK_HALF_EXTENT * n.1) as i64,
        z: (centre.2 + BLOCK_HALF_EXTENT * n.2) as i64,
        tex_u: spec_texture_pos(t, f).0 as i32,
        tex_v: spec_texture_pos(t, f).1 as i32,
    }
}

/// Emission order of the six faces of one cell.
pub open spec fn face_at(k: int) -> Face {
    if k == 0 {
        Face::Right
    } else if k == 1 {
        Face::Left
    } else if k == 2 {
        Face::Top
    } else if k == 3 {
        Face::Bottom
    } else if k == 4 {
        Face::Front
    } else {
        Face::Back
    }
}

/// Instances accumulated after emitting the first `k` faces (in emission
/// order) of the occupied cell `(x, y, z)` onto `s`.
pub open spec fn spec_cell_after(
    g: Seq<Option<Block>>,
    c: ChunkCoordinate,
    x: int,
    y: int,
    z: int,
    s: Seq<RawFaceInstance>,
    k: int,
) -> Seq<RawFaceInstance>
    decreases k,
{
    if k <= 0 {
        s
    } else {
        let s1 = spec_cell_after(g, c, x, y, z, s, k - 1);
        let f = face_at(k - 1);
        if face_exposed(g, x, y, z, f) {
            s1.push(spec_cell_instance(g, c, x, y, z, f))
        } else {
            s1
        }
    }
}

/// Instances accumulated after emitting the whole cell `(x, y, z)` onto
/// `s`: an empty cell contributes nothing.
pub open spec fn spec_cell_emit(
    g: Seq<Option<Block>>,
    c: ChunkCoordinate,
    x: int,
    y: int,
    z: int,
    s: Seq<RawFaceInstance>,
) -> Seq<RawFaceInstance> {
    if cell_occupied(g, x, y, z) {
        spec_cell_after(g, c, x, y, z, s, 6)
    } else {
        s
    }
}

/// Instances of the first `n` cells of the grid, in linear order.
pub open spec fn spec_instances_upto(g: Seq<Option<Block>>, c: ChunkCoordinate, n: int) -> Seq<
    RawFaceInstance,
>
    decreases n,
{
    if n <= 0 {
        Seq::empty()
    } else {
        spec_cell_emit(
            g,
            c,
            idx_x(n - 1),
            idx_y(n - 1),
            idx_z(n - 1),
            spec_instances_upto(g, c, n - 1),
        )
    }
}

/// The full instance list of a chunk: every exposed face of every occupied
/// cell, iterated in `(x, y, z)` order, six faces per cell in emission
/// order.
pub open spec fn spec_chunk_instances(g: Seq<Option<Block>>, c: ChunkCoordinate) -> Seq<
    RawFaceInstance,
> {
    spec_instances_upto(g, c, BLOCKS_PER_CHUNK as int)
}

/// A fixed-size 3D grid of optional blocks anchored at a chunk coordinate,
/// with the face-instance list built at construction and cached.
pub struct Chunk {
    blocks: Vec<Option<Block>>,
    chunk_coord: ChunkCoordinate,
    raw_face_instances: Vec<RawFaceInstance>,
}

impl Chunk {
    /// The flat block arena.
    pub closed spec fn grid(self) -> Seq<Option<Block>> {
        self.blocks@
    }

    /// The coordinate the chunk is anchored at.
    pub closed spec fn coord(self) -> ChunkCoordinate {
        self.chunk_coord
    }

    /// The cached face-instance list.
    pub closed spec fn instances(self) -> Seq<RawFaceInstance> {
        self.raw_face_instances@
    }

    /// Well-formedness: full-size grid, coordinate in range, every block
    /// carrying exactly its exposure set, and the cached instance list equal
    /// to the instance list the grid defines.
    pub open spec fn wf(self) -> bool {
        &&& self.grid().len() == BLOCKS_PER_CHUNK
        &&& coord_in_range(self.coord())
        &&& grid_all_dirt(self.grid())
        &&& forall|i: int| 0 <= i < BLOCKS_PER_CHUNK ==> #[trigger] faces_ok_at(self.grid(), i)
        &&& self.instances() == spec_chunk_instances(self.grid(), self.coord())
    }

    /// The block (if any) of the cell `(x, y, z)`.
    pub open spec fn block_at(self, x: int, y: int, z: int) -> Option<Block>
        recommends
            cell_in_bounds(x, y, z),
    {
        self.grid()[grid_index(x, y, z)]
    }

    /// The coordinate the chunk is anchored at.
    pub fn get_chunk_coord(&self) -> (c: ChunkCoordinate)
        ensures
            c == self.coord(),
    {
        self.chunk_coord
    }

    /// The block (if any) of the cell `(x, y, z)`.
    pub fn get_block(&self, x: usize, y: usize, z: usize) -> (b: Option<Block>)
        requires
            self.wf(),
            cell_in_bounds(x as int, y as int, z as int),
        ensures
            b == self.block_at(x as int, y as int, z as int),
    {
        proof {
            lemma_grid_index_inverse(x as int, y as int, z as int);
        }
        self.blocks[(x * CHUNK_VERTICAL_BLOCKS + y) * CHUNK_SIDE_BLOCKS + z]
    }

    /// The cached face-instance list; never recomputed after construction.
    pub fn get_raw_face_instances(&self) -> (r: &Vec<RawFaceInstance>)
        ensures
            r@ == self.instances(),
    {
        &self.raw_face_instances
    }

    /// A fully-formed chunk from a block grid: face computation, then the
    /// instance list, in one construction pass.  The incoming face sets are
    /// ignored and recomputed from the grid's occupancy.
    pub fn with_blocks(blocks: Vec<Option<Block>>, chunk_coord: ChunkCoordinate) -> (c: Chunk)
        requires
            blocks@.len() == BLOCKS_PER_CHUNK,
            coord_in_range(chunk_coord),
            grid_all_dirt(blocks@),
        ensures
            c.wf(),
            c.coord() == chunk_coord,
            forall|j: int|
                0 <= j < BLOCKS_PER_CHUNK ==> #[trigger] cell_kind_same(blocks@, c.grid(), j),
    {
        let ghost g_in = blocks@;
        let computed = calculate_faces(blocks);
        proof {
            assert forall|i: int| 0 <= i < BLOCKS_PER_CHUNK implies #[trigger] faces_ok_at(
                computed@,
                i,
            ) by {
                lemma_index_decompose(i);
                if computed@[i] is Some {
                    lemma_exposure_same(g_in, computed@, idx_x(i), idx_y(i), idx_z(i));
                }
            }
            assert(grid_all_dirt(computed@)) by {
                assert forall|i: int|
                    0 <= i < computed@.len() implies (#[trigger] computed@[i] matches Some(b)
                        ==> b.block_type == BlockType::Dirt) by {
                    assert(cell_kind_same(g_in, computed@, i));
                }
            }
        }
        let raw_face_instances = calculate_raw_face_instances(&computed, chunk_coord);
        Chunk { blocks: computed, chunk_coord, raw_face_instances }
    }

    /// A chunk uniformly filled with the given optional block: the current
    /// placeholder fill policy of the generation pipeline.
    pub fn with_block(block: Option<Block>, chunk_coord: ChunkCoordinate) -> (c: Chunk)
        requires
            coord_in_range(chunk_coord),
            block matches Some(b) ==> b.block_type == BlockType::Dirt,
        ensures
            c.wf(),
            c.coord() == chunk_coord,
            forall|j: int|
                0 <= j < BLOCKS_PER_CHUNK ==> ((#[trigger] c.grid()[j]) is Some <==> block
                    is Some),
            forall|j: int|
                0 <= j < BLOCKS_PER_CHUNK ==> ((#[trigger] c.grid()[j]) is Some
                    ==> c.grid()[j]->Some_0.block_type == block->Some_0.block_type),
    {
        let mut blocks: Vec<Option<Block>> = Vec::new();
        let mut i: usize = 0;
        while i < BLOCKS_PER_CHUNK
            invariant
                i <= BLOCKS_PER_CHUNK,
                blocks@.len() == i,
                forall|j: int| 0 <= j < i ==> blocks@[j] == block,
                block matches Some(b) ==> b.block_type == BlockType::Dirt,
            decreases BLOCKS_PER_CHUNK - i,
        {
            blocks.push(block);
            i += 1;
        }
        let c = Self::with_blocks(blocks, chunk_coord);
        proof {
            assert forall|j: int| 0 <= j < BLOCKS_PER_CHUNK implies ((#[trigger] c.grid()[j])
                is Some <==> block is Some) && (c.grid()[j] is Some ==> c.grid()[j]
                ->Some_0.block_type == block->Some_0.block_type) by {
                assert(cell_kind_same(blocks@, c.grid(), j));
            }
        }
        c
    }
}

/// Decomposition of a linear index into its cell coordinates.
proof fn lemma_index_decompose(i: int)
    requires
        0 <= i < BLOCKS_PER_CHUNK,
    ensures
        0 <= idx_x(i) < CHUNK_SIDE_BLOCKS,
        0 <= idx_y(i) < CHUNK_VERTICAL_BLOCKS,
        0 <= idx_z(i) < CHUNK_SIDE_BLOCKS,
        grid_index(idx_x(i), idx_y(i), idx_z(i)) == i,
{
    let m = (CHUNK_VERTICAL_BLOCKS * CHUNK_SIDE_BLOCKS) as int;
    vstd::arithmetic::div_mod::lemma_fundamental_div_mod(i, m);
    vstd::arithmetic::div_mod::lemma_mod_bound(i, m);
    vstd::arithmetic::div_mod::lemma_fundamental_div_mod(i % m, CHUNK_SIDE_BLOCKS as int);
    vstd::arithmetic::div_mod::lemma_mod_bound(i % m, CHUNK_SIDE_BLOCKS as int);
}

/// Converse decomposition: the linear index of an in-bounds cell maps back
/// to that cell's coordinates.
proof fn lemma_grid_index_inverse(x: int, y: int, z: int)
    requires
        cell_in_bounds(x, y, z),
    ensures
        0 <= grid_index(x, y, z) < BLOCKS_PER_CHUNK,
        idx_x(grid_index(x, y, z)) == x,
        idx_y(grid_index(x, y, z)) == y,
        idx_z(grid_index(x, y, z)) == z,
{
    let m = (CHUNK_VERTICAL_BLOCKS * CHUNK_SIDE_BLOCKS) as int;
    let side = CHUNK_SIDE_BLOCKS as int;
    let i = grid_index(x, y, z);
    let r = y * side + z;
    vstd::arithmetic::div_mod::lemma_fundamental_div_mod_converse(i, m, x, r);
    vstd::arithmetic::div_mod::lemma_fundamental_div_mod_converse(r, side, y, z);
}

/// Exposure depends on the grid's occupancy alone: two grids whose cells
/// agree on occupancy assign each cell the same exposure set.
proof fn lemma_exposure_same(
    g1: Seq<Option<Block>>,
    g2: Seq<Option<Block>>,
    x: int,
    y: int,
    z: int,
)
    requires
        g1.len() == BLOCKS_PER_CHUNK,
        g2.len() == BLOCKS_PER_CHUNK,
        forall|j: int| 0 <= j < BLOCKS_PER_CHUNK ==> #[trigger] cell_kind_same(g1, g2, j),
    ensures
        spec_exposure(g1, x, y, z) == spec_exposure(g2, x, y, z),
{
    assert forall|nx: int, ny: int, nz: int|
        cell_occupied(g1, nx, ny, nz) == cell_occupied(g2, nx, ny, nz) by {
        if cell_in_bounds(nx, ny, nz) {
            lemma_grid_index_inverse(nx, ny, nz);
            assert(cell_kind_same(g1, g2, grid_index(nx, ny, nz)));
        }
    }
}

/// Exposure of one cell, read from the grid's occupancy: a face is exposed
/// when the neighbouring cell in its direction is out of bounds or empty.
fn compute_cell_exposure(blocks: &Vec<Option<Block>>, x: usize, y: usize, z: usize) -> (fs:
    FaceSet)
    requires
        blocks@.len() == BLOCKS_PER_CHUNK,
        cell_in_bounds(x as int, y as int, z as int),
    ensures
        fs == spec_exposure(blocks@, x as int, y as int, z as int),
{
    let idx = (x * CHUNK_VERTICAL_BLOCKS + y) * CHUNK_SIDE_BLOCKS + z;
    let right = x + 1 >= CHUNK_SIDE_BLOCKS || out_is_none(blocks, idx
        + CHUNK_VERTICAL_BLOCKS * CHUNK_SIDE_BLOCKS);
    let left = x == 0 || out_is_none(blocks, idx - CHUNK_VERTICAL_BLOCKS * CHUNK_SIDE_BLOCKS);
    let top = y + 1 >= CHUNK_VERTICAL_BLOCKS || out_is_none(blocks, idx + CHUNK_SIDE_BLOCKS);
    let bottom = y == 0 || out_is_none(blocks, idx - CHUNK_SIDE_BLOCKS);
    let front = z + 1 >= CHUNK_SIDE_BLOCKS || out_is_none(blocks, idx + 1);
    let back = z == 0 || out_is_none(blocks, idx - 1);
    proof {
        assert(right == face_exposed(blocks@, x as int, y as int, z as int, Face::Right));
        assert(left == face_exposed(blocks@, x as int, y as int, z as int, Face::Left));
        assert(top == face_exposed(blocks@, x as int, y as int, z as int, Face::Top));
        assert(bottom == face_exposed(blocks@, x as int, y as int, z as int, Face::Bottom));
        assert(front == face_exposed(blocks@, x as int, y as int, z as int, Face::Front));
        assert(back == face_exposed(blocks@, x as int, y as int, z as int, Face::Back));
    }
    FaceSet { right, left, top, bottom, front, back }
}

/// Whether the cell at the given linear index is empty.
fn out_is_none(blocks: &Vec<Option<Block>>, idx: usize) -> (b: bool)
    requires
        idx < blocks@.len(),
    ensures
        b == !(blocks@[idx as int] is Some),
{
    blocks[idx].is_none()
}

/// Face-computation pass: give every occupied cell exactly the face set
/// that the grid's occupancy exposes.
#[verifier::loop_isolation(false)]
fn calculate_faces(blocks: Vec<Option<Block>>) -> (out: Vec<Option<Block>>)
    requires
        blocks@.len() == BLOCKS_PER_CHUNK,
    ensures
        out@.len() == BLOCKS_PER_CHUNK,
        forall|j: int| 0 <= j < BLOCKS_PER_CHUNK ==> #[trigger] cell_kind_same(blocks@, out@, j),
        forall|j: int|
            0 <= j < BLOCKS_PER_CHUNK ==> ((#[trigger] out@[j]) matches Some(b) ==> b.faces
                == spec_exposure(blocks@, idx_x(j), idx_y(j), idx_z(j))),
{
    let ghost g0 = blocks@;
    let mut out = blocks;
    let mut idx: usize = 0;
    while idx < BLOCKS_PER_CHUNK
        invariant
            idx <= BLOCKS_PER_CHUNK,
            out@.len() == BLOCKS_PER_CHUNK,
            forall|j: int| 0 <= j < BLOCKS_PER_CHUNK ==> #[trigger] cell_kind_same(g0, out@, j),
            forall|j: int|
                0 <= j < idx ==> ((#[trigger] out@[j]) matches Some(b) ==> b.faces
                    == spec_exposure(g0, idx_x(j), idx_y(j), idx_z(j))),
        decreases BLOCKS_PER_CHUNK - idx,
    {
        let x = idx / (CHUNK_VERTICAL_BLOCKS * CHUNK_SIDE_BLOCKS);
        let rem = idx % (CHUNK_VERTICAL_BLOCKS * CHUNK_SIDE_BLOCKS);
        let y = rem / CHUNK_SIDE_BLOCKS;
        let z = rem % CHUNK_SIDE_BLOCKS;
        proof {
            lemma_index_decompose(idx as int);
            assert(cell_kind_same(g0, out@, idx as int));
        }
        let cur = out[idx];
        if let Some(b) = cur {
            let fs = compute_cell_exposure(&out, x, y, z);
            proof {
                lemma_exposure_same(g0, out@, x as int, y as int, z as int);
            }
            let ghost pre = out@;
            out[idx] = Some(Block { block_type: b.block_type, faces: fs });
            proof {
                assert forall|j: int|
                    0 <= j < BLOCKS_PER_CHUNK implies #[trigger] cell_kind_same(g0, out@, j) by {
                    assert(cell_kind_same(g0, pre, j));
                }
            }
        }
        idx += 1;
    }
    out
}

/// Instance-building pass: one `RawFaceInstance` per exposed face of every
/// occupied cell, in `(x, y, z)` cell order and fixed face order.
#[verifier::loop_isolation(false)]
#[verifier::rlimit(60)]
fn calculate_raw_face_instances(blocks: &Vec<Option<Block>>, chunk_coord: ChunkCoordinate) -> (out:
    Vec<RawFaceInstance>)
    requires
        blocks@.len() == BLOCKS_PER_CHUNK,
        coord_in_range(chunk_coord),
        grid_all_dirt(blocks@),
        forall|i: int| 0 <= i < BLOCKS_PER_CHUNK ==> #[trigger] faces_ok_at(blocks@, i),
    ensures
        out@ == spec_chunk_instances(blocks@, chunk_coord),
{
    let ghost g = blocks@;
    let (ax, az) = get_world_coord_from_chunk_coord(chunk_coord);
    let mut out: Vec<RawFaceInstance> = Vec::new();
    let mut idx: usize = 0;
    while idx < BLOCKS_PER_CHUNK
        invariant
            idx <= BLOCKS_PER_CHUNK,
            out@ == spec_instances_upto(g, chunk_coord, idx as int),
        decreases BLOCKS_PER_CHUNK - idx,
    {
        let x = idx / (CHUNK_VERTICAL_BLOCKS * CHUNK_SIDE_BLOCKS);
        let rem = idx % (CHUNK_VERTICAL_BLOCKS * CHUNK_SIDE_BLOCKS);
        let y = rem / CHUNK_SIDE_BLOCKS;
        let z = rem % CHUNK_SIDE_BLOCKS;
        proof {
            lemma_index_decompose(idx as int);
        }
        let ghost gx = x as int;
        let ghost gy = y as int;
        let ghost gz = z as int;
        let ghost prefix = out@;
        if let Some(b) = blocks[idx] {
            proof {
                assert(faces_ok_at(g, idx as int));
                assert(b.faces == spec_exposure(g, gx, gy, gz));
            }
            let bx = ax - CHUNK_HALF_SIDE_EXTENT + BLOCK_HALF_EXTENT + BLOCK_EXTENT * (x as i64);
            let by = -CHUNK_HALF_VERTICAL_EXTENT + BLOCK_HALF_EXTENT + BLOCK_EXTENT * (y as i64);
            let bz = az - CHUNK_HALF_SIDE_EXTENT + BLOCK_HALF_EXTENT + BLOCK_EXTENT * (z as i64);
            proof {
                assert((bx as int, by as int, bz as int) == spec_block_centre(chunk_coord, gx, gy,
                    gz));
                assert(spec_cell_after(g, chunk_coord, gx, gy, gz, prefix, 0) == prefix);
            }
            if b.faces.contains(Face::Right) {
                let inst = RawFaceInstance::from(b.block_type, Face::Right, bx, by, bz);
                proof {
                    assert(inst == spec_cell_instance(g, chunk_coord, gx, gy, gz, Face::Right));
                }
                out.push(inst);
            }
            proof {
                assert(out@ == spec_cell_after(g, chunk_coord, gx, gy, gz, prefix, 1));
            }
            if b.faces.contains(Face::Left) {
                let inst = RawFaceInstance::from(b.block_type, Face::Left, bx, by, bz);
                proof {
                    assert(inst == spec_cell_instance(g, chunk_coord, gx, gy, gz, Face::Left));
                }
                out.push(inst);
            }
            proof {
                assert(out@ == spec_cell_after(g, chunk_coord, gx, gy, gz, prefix, 2));
            }
            if b.faces.contains(Face::Top) {
                let inst = RawFaceInstance::from(b.block_type, Face::Top, bx, by, bz);
                proof {
                    assert(inst == spec_cell_instance(g, chunk_coord, gx, gy, gz, Face::Top));
                }
                out.push(inst);
            }
            proof {
                assert(out@ == spec_cell_after(g, chunk_coord, gx, gy, gz, prefix, 3));
            }
            if b.faces.contains(Face::Bottom) {
                let inst = RawFaceInstance::from(b.block_type, Face::Bottom, bx, by, bz);
                proof {
                    assert(inst == spec_cell_instance(g, chunk_coord, gx, gy, gz, Face::Bottom));
                }
                out.push(inst);
            }
            proof {
                assert(out@ == spec_cell_after(g, chunk_coord, gx, gy, gz, prefix, 4));
            }
            if b.faces.contains(Face::Front) {
                let inst = RawFaceInstance::from(b.block_type, Face::Front, bx, by, bz);
                proof {
                    assert(inst == spec_cell_instance(g, chunk_coord, gx, gy, gz, Face::Front));
                }
                out.push(inst);
            }
            proof {
                assert(out@ == spec_cell_after(g, chunk_coord, gx, gy, gz, prefix, 5));
            }
            if b.faces.contains(Face::Back) {
                let inst = RawFaceInstance::from(b.block_type, Face::Back, bx, by, bz);
                proof {
                    assert(inst == spec_cell_instance(g, chunk_coord, gx, gy, gz, Face::Back));
                }
                out.push(inst);
            }
            proof {
                assert(out@ == spec_cell_after(g, chunk_coord, gx, gy, gz, prefix, 6));
                assert(cell_occupied(g, gx, gy, gz));
                assert(out@ == spec_instances_upto(g, chunk_coord, idx as int + 1));
            }
        } else {
            proof {
                assert(!cell_occupied(g, gx, gy, gz));
                assert(out@ == spec_instances_upto(g, chunk_coord, idx as int + 1));
            }
        }
        idx += 1;
    }
    out
}

/// Face-culling on a fully solid chunk: a face of any cell is recorded as
/// exposed exactly when its neighbouring cell lies outside the chunk's
/// bounds.  In particular a strictly interior cell carries an empty face
/// set, and a boundary cell carries exactly its boundary-facing bits.
pub proof fn lemma_solid_chunk_faces(c: Chunk, x: int, y: int, z: int)
    requires
        c.wf(),
        forall|i: int| 0 <= i < BLOCKS_PER_CHUNK ==> (#[trigger] c.grid()[i]) is Some,
        cell_in_bounds(x, y, z),
    ensures
        c.block_at(x, y, z) is Some,
        forall|f: Face|
            c.block_at(x, y, z)->Some_0.faces.spec_contains(f) == !cell_in_bounds(
                x + spec_face_normal(f).0,
                y + spec_face_normal(f).1,
                z + spec_face_normal(f).2,
            ),
{
    lemma_grid_index_inverse(x, y, z);
    let i = grid_index(x, y, z);
    assert(faces_ok_at(c.grid(), i));
    let b = c.grid()[i]->Some_0;
    assert forall|f: Face|
        b.faces.spec_contains(f) == !cell_in_bounds(
            x + spec_face_normal(f).0,
            y + spec_face_normal(f).1,
            z + spec_face_normal(f).2,
        ) by {
        let nx = x + spec_face_normal(f).0;
        let ny = y + spec_face_normal(f).1;
        let nz = z + spec_face_normal(f).2;
        if cell_in_bounds(nx, ny, nz) {
            lemma_grid_index_inverse(nx, ny, nz);
            assert(cell_occupied(c.grid(), nx, ny, nz));
        }
    }
}

} // verus!
