use vstd::prelude::*;
use crate::block::{Block, tag_of};
use crate::chunk::{Chunk, in_bounds, MAX_CHUNK_COORD, MAX_CHUNK_SIZE};
use crate::world::World;
use vstd::seq_lib::lemma_concat_associative;

verus! {

/// One corner of an emitted triangle: a world position in block units and
/// the tag of the block whose face it belongs to.
#[derive(Clone, Copy, Debug, PartialEq, Eq, Structural)]
pub struct Vertex {
    pub x: i64,
    pub y: i64,
    pub z: i64,
    pub tag: u8,
}

/// Number of vertices of one face: two triangles.
pub const FACE_VERTICES: usize = 6;

/// The unit step towards the neighbour probed for face `f`, in the fixed face
/// order -X, +X, -Y, +Y, -Z, +Z.
pub open spec fn face_dir(f: int) -> (int, int, int) {
    if f == 0 {
        (-1, 0, 0)
    } else if f == 1 {
        (1, 0, 0)
    } else if f == 2 {
        (0, -1, 0)
    } else if f == 3 {
        (0, 1, 0)
    } else if f == 4 {
        (0, 0, -1)
    } else {
        (0, 0, 1)
    }
}

/// The corners, relative to the block's minimum corner, of the two triangles
/// of face `f`, in emission order. Every triangle is wound counter-clockwise
/// seen from outside the block, so its normal points toward the neighbour
/// that face `f` is culled against.
pub open spec fn face_corners(f: int) -> Seq<(int, int, int)> {
    if f == 0 {
        seq![(0, 0, 0), (0, 0, 1), (0, 1, 0), (0, 1, 0), (0, 0, 1), (0, 1, 1)]
    } else if f == 1 {
        seq![(1, 0, 0), (1, 1, 0), (1, 0, 1), (1, 1, 0), (1, 1, 1), (1, 0, 1)]
    } else if f == 2 {
        seq![(0, 0, 0), (1, 0, 0), (1, 0, 1), (1, 0, 1), (0, 0, 1), (0, 0, 0)]
    } else if f == 3 {
        seq![(0, 1, 0), (1, 1, 1), (1, 1, 0), (1, 1, 1), (0, 1, 0), (0, 1, 1)]
    } else if f == 4 {
        seq![(0, 0, 0), (0, 1, 0), (1, 0, 0), (1, 0, 0), (0, 1, 0), (1, 1, 0)]
    } else {
        seq![(0, 0, 1), (1, 0, 1), (0, 1, 1), (1, 0, 1), (1, 1, 1), (0, 1, 1)]
    }
}

pub open spec fn vertex_at(x: int, y: int, z: int, tag: u8) -> Vertex {
    Vertex { x: x as i64, y: y as i64, z: z as i64, tag }
}

/// The six vertices of face `f` of the block whose minimum corner is at world
/// position `(ox, oy, oz)`.
pub open spec fn quad(f: int, ox: int, oy: int, oz: int, tag: u8) -> Seq<Vertex> {
    Seq::new(
        6,
        |k: int|
            vertex_at(
                ox + face_corners(f)[k].0,
                oy + face_corners(f)[k].1,
                oz + face_corners(f)[k].2,
                tag,
            ),
    )
}

/// World position of the minimum corner of local cell `(x, y, z)` along each axis.
pub open spec fn origin(c: Chunk, x: int, y: int, z: int) -> (int, int, int) {
    (x + c.coords.0 * c.size, y + c.coords.1 * c.size, z + c.coords.2 * c.size)
}

/// Whether face `f` of local cell `(x, y, z)` is exposed: nothing occupies the
/// neighbouring cell it faces.
pub open spec fn exposed(c: Chunk, w: Map<(i64, i64, i64), Chunk>, x: int, y: int, z: int, f: int) -> bool {
    c.query(w, x + face_dir(f).0, y + face_dir(f).1, z + face_dir(f).2).is_none()
}

/// The vertices of the exposed faces among the first `n` faces, in face order.
pub open spec fn faces_upto(
    c: Chunk,
    w: Map<(i64, i64, i64), Chunk>,
    x: int,
    y: int,
    z: int,
    tag: u8,
    n: int,
) -> Seq<Vertex>
    decreases n,
{
    if n <= 0 {
        Seq::empty()
    } else {
        faces_upto(c, w, x, y, z, tag, n - 1) + if exposed(c, w, x, y, z, n - 1) {
            quad(n - 1, origin(c, x, y, z).0, origin(c, x, y, z).1, origin(c, x, y, z).2, tag)
        } else {
            Seq::empty()
        }
    }
}

/// The mesh of a block of kind `b` at local cell `(x, y, z)` of `c`.
pub open spec fn block_mesh(c: Chunk, w: Map<(i64, i64, i64), Chunk>, x: int, y: int, z: int, b: Block) -> Seq<Vertex> {
    faces_upto(c, w, x, y, z, tag_of(b), 6)
}

/// The number of exposed faces among the first `n`.
pub open spec fn exposed_count(c: Chunk, w: Map<(i64, i64, i64), Chunk>, x: int, y: int, z: int, n: int) -> int
    decreases n,
{
    if n <= 0 {
        0
    } else {
        exposed_count(c, w, x, y, z, n - 1) + if exposed(c, w, x, y, z, n - 1) {
            1int
        } else {
            0
        }
    }
}

fn face_dir_exec(f: usize) -> (r: (i64, i64, i64))
    requires
        f < 6,
    ensures
        r.0 == face_dir(f as int).0,
        r.1 == face_dir(f as int).1,
        r.2 == face_dir(f as int).2,
{
    if f == 0 {
        (-1, 0, 0)
    } else if f == 1 {
        (1, 0, 0)
    } else if f == 2 {
        (0, -1, 0)
    } else if f == 3 {
        (0, 1, 0)
    } else if f == 4 {
        (0, 0, -1)
    } else {
        (0, 0, 1)
    }
}

fn face_corners_exec(f: usize) -> (r: [(i64, i64, i64); 6])
    requires
        f < 6,
    ensures
        forall|k: int|
            0 <= k < 6 ==> {
                &&& r@[k].0 == (#[trigger] face_corners(f as int)[k]).0
                &&& r@[k].1 == face_corners(f as int)[k].1
                &&& r@[k].2 == face_corners(f as int)[k].2
            },
{
    if f == 0 {
        [(0, 0, 0), (0, 0, 1), (0, 1, 0), (0, 1, 0), (0, 0, 1), (0, 1, 1)]
    } else if f == 1 {
        [(1, 0, 0), (1, 1, 0), (1, 0, 1), (1, 1, 0), (1, 1, 1), (1, 0, 1)]
    } else if f == 2 {
        [(0, 0, 0), (1, 0, 0), (1, 0, 1), (1, 0, 1), (0, 0, 1), (0, 0, 0)]
    } else if f == 3 {
        [(0, 1, 0), (1, 1, 1), (1, 1, 0), (1, 1, 1), (0, 1, 0), (0, 1, 1)]
    } else if f == 4 {
        [(0, 0, 0), (0, 1, 0), (1, 0, 0), (1, 0, 0), (0, 1, 0), (1, 1, 0)]
    } else {
        [(0, 0, 1), (1, 0, 1), (0, 1, 1), (1, 0, 1), (1, 1, 1), (0, 1, 1)]
    }
}

/// Bound on the magnitude of a block's world position.
pub open spec fn position_bound() -> int {
    MAX_CHUNK_COORD * MAX_CHUNK_SIZE + MAX_CHUNK_SIZE
}

fn push_quad(out: &mut Vec<Vertex>, f: usize, ox: i64, oy: i64, oz: i64, tag: u8)
    requires
        f < 6,
        -position_bound() <= ox <= position_bound(),
        -position_bound() <= oy <= position_bound(),
        -position_bound() <= oz <= position_bound(),
    ensures
        final(out)@ == old(out)@ + quad(f as int, ox as int, oy as int, oz as int, tag),
{
    let corners = face_corners_exec(f);
    let ghost start = out@;
    let mut k: usize = 0;
    while k < FACE_VERTICES
        invariant
            k <= 6,
            f < 6,
            -position_bound() <= ox <= position_bound(),
            -position_bound() <= oy <= position_bound(),
            -position_bound() <= oz <= position_bound(),
            forall|j: int|
                0 <= j < 6 ==> {
                    &&& corners@[j].0 == (#[trigger] face_corners(f as int)[j]).0
                    &&& corners@[j].1 == face_corners(f as int)[j].1
                    &&& corners@[j].2 == face_corners(f as int)[j].2
                },
            out@ == start + quad(f as int, ox as int, oy as int, oz as int, tag).take(k as int),
        decreases 6 - k,
    {
        let c = corners[k];
        assert(0 <= c.0 <= 1 && 0 <= c.1 <= 1 && 0 <= c.2 <= 1) by {
            assert(face_corners(f as int)[k as int] == face_corners(f as int)[k as int]);
        }
        out.push(Vertex { x: ox + c.0, y: oy + c.1, z: oz + c.2, tag });
        k = k + 1;
        assert(out@ =~= start + quad(f as int, ox as int, oy as int, oz as int, tag).take(k as int));
    }
    assert(quad(f as int, ox as int, oy as int, oz as int, tag).take(6) =~= quad(f as int, ox as int, oy as int, oz as int, tag));
}

/// World position of local coordinate `v` in a chunk at chunk coordinate `c`.
fn world_position(v: i64, c: i64, size: i64) -> (r: i64)
    requires
        -1 <= v <= size,
        1 <= size <= MAX_CHUNK_SIZE,
        -MAX_CHUNK_COORD <= c <= MAX_CHUNK_COORD,
    ensures
        r == v + c * size,
        -position_bound() <= r <= position_bound(),
{
    assert(-MAX_CHUNK_COORD * MAX_CHUNK_SIZE <= c * size <= MAX_CHUNK_COORD * MAX_CHUNK_SIZE)
        by (nonlinear_arith)
        requires
            1 <= size <= MAX_CHUNK_SIZE,
            -MAX_CHUNK_COORD <= c <= MAX_CHUNK_COORD,
    ;
    v + c * size
}

/// The vertices of the visible faces of a block of kind `block_type` at local
/// cell `(x, y, z)` of `chunk`: for each face in the order -X, +X, -Y, +Y,
/// -Z, +Z whose neighbouring cell is empty or unloaded, the six vertices of
/// its two triangles, at world positions and tagged with the block's kind.
pub fn gen_vertex(x: i64, y: i64, z: i64, block_type: Block, chunk: &Chunk, world: &World) -> (r: Vec<Vertex>)
    requires
        chunk.wf(),
        world.wf(),
        chunk.size == world.chunk_size,
        in_bounds(chunk.size as int, x as int, y as int, z as int),
    ensures
        r@ == block_mesh(*chunk, world@, x as int, y as int, z as int, block_type),
{
    let ox = world_position(x, chunk.coords.0, chunk.size);
    let oy = world_position(y, chunk.coords.1, chunk.size);
    let oz = world_position(z, chunk.coords.2, chunk.size);
    let tag = block_type.tag();
    let mut out: Vec<Vertex> = Vec::with_capacity(6 * FACE_VERTICES);
    let mut f: usize = 0;
    while f < 6
        invariant
            f <= 6,
            chunk.wf(),
            world.wf(),
            chunk.size == world.chunk_size,
            in_bounds(chunk.size as int, x as int, y as int, z as int),
            ox == origin(*chunk, x as int, y as int, z as int).0,
            oy == origin(*chunk, x as int, y as int, z as int).1,
            oz == origin(*chunk, x as int, y as int, z as int).2,
            -position_bound() <= ox <= position_bound(),
            -position_bound() <= oy <= position_bound(),
            -position_bound() <= oz <= position_bound(),
            tag == tag_of(block_type),
            out@ == faces_upto(*chunk, world@, x as int, y as int, z as int, tag, f as int),
        decreases 6 - f,
    {
        let d = face_dir_exec(f);
        if chunk.get_block(world, x + d.0, y + d.1, z + d.2).is_none() {
            push_quad(&mut out, f, ox, oy, oz, tag);
        }
        f = f + 1;
        assert(out@ =~= faces_upto(*chunk, world@, x as int, y as int, z as int, tag, f as int));
    }
    out
}

/// The mesh of local cell `(x, y, z)`: nothing for an empty cell.
pub open spec fn cell_mesh(c: Chunk, w: Map<(i64, i64, i64), Chunk>, x: int, y: int, z: int) -> Seq<Vertex> {
    match c.cell(x, y, z) {
        Some(b) => block_mesh(c, w, x, y, z, b),
        None => Seq::empty(),
    }
}

/// The meshes of the cells `(x, 0, z)` .. `(x, n - 1, z)`, in that order.
pub open spec fn column_mesh(c: Chunk, w: Map<(i64, i64, i64), Chunk>, z: int, x: int, n: int) -> Seq<Vertex>
    decreases n,
{
    if n <= 0 {
        Seq::empty()
    } else {
        column_mesh(c, w, z, x, n - 1) + cell_mesh(c, w, x, n - 1, z)
    }
}

/// The meshes of the columns `x = 0 .. n - 1` of layer `z`, in that order.
pub open spec fn layer_mesh(c: Chunk, w: Map<(i64, i64, i64), Chunk>, z: int, n: int) -> Seq<Vertex>
    decreases n,
{
    if n <= 0 {
        Seq::empty()
    } else {
        layer_mesh(c, w, z, n - 1) + column_mesh(c, w, z, n - 1, c.size as int)
    }
}

/// The meshes of the layers `z = 0 .. n - 1`, in that order.
pub open spec fn layers_mesh(c: Chunk, w: Map<(i64, i64, i64), Chunk>, n: int) -> Seq<Vertex>
    decreases n,
{
    if n <= 0 {
        Seq::empty()
    } else {
        layers_mesh(c, w, n - 1) + layer_mesh(c, w, n - 1, c.size as int)
    }
}

/// The renderable surface of chunk `c`: the meshes of all its occupied
/// cells, layer by layer along z, column by column along x, cell by cell
/// along y.
pub open spec fn chunk_mesh(c: Chunk, w: Map<(i64, i64, i64), Chunk>) -> Seq<Vertex> {
    layers_mesh(c, w, c.size as int)
}

/// The vertex stream of every visible face of `chunk`, looking into the
/// chunks of `world` across its borders.
pub fn gen_chunk_mesh(chunk: &Chunk, world: &World) -> (r: Vec<Vertex>)
    requires
        chunk.wf(),
        world.wf(),
        chunk.size == world.chunk_size,
    ensures
        r@ == chunk_mesh(*chunk, world@),
{
    let s = chunk.len();
    let ghost c = *chunk;
    let ghost w = world@;
    let mut out: Vec<Vertex> = Vec::new();
    let mut z: i64 = 0;
    while z < s
        invariant
            chunk.wf(),
            world.wf(),
            chunk.size == world.chunk_size,
            s == chunk.size,
            c == *chunk,
            w == world@,
            0 <= z <= s,
            out@ == layers_mesh(c, w, z as int),
        decreases s - z,
    {
        let ghost before_layer = out@;
        let mut x: i64 = 0;
        while x < s
            invariant
                chunk.wf(),
                world.wf(),
                chunk.size == world.chunk_size,
                s == chunk.size,
                c == *chunk,
                w == world@,
                0 <= z < s,
                0 <= x <= s,
                out@ == before_layer + layer_mesh(c, w, z as int, x as int),
            decreases s - x,
        {
            let ghost before_column = out@;
            let mut y: i64 = 0;
            while y < s
                invariant
                    chunk.wf(),
                    world.wf(),
                    chunk.size == world.chunk_size,
                    s == chunk.size,
                    c == *chunk,
                    w == world@,
                    0 <= z < s,
                    0 <= x < s,
                    0 <= y <= s,
                    out@ == before_column + column_mesh(c, w, z as int, x as int, y as int),
                decreases s - y,
            {
                let ghost before_cell = out@;
                match chunk.get_local(x, y, z) {
                    Some(b) => {
                        let v = gen_vertex(x, y, z, b, chunk, world);
                        let mut i: usize = 0;
                        while i < v.len()
                            invariant
                                i <= v@.len(),
                                out@ == before_cell + v@.take(i as int),
                            decreases v@.len() - i,
                        {
                            out.push(v[i]);
                            i = i + 1;
                            assert(out@ =~= before_cell + v@.take(i as int));
                        }
                        assert(v@.take(v@.len() as int) =~= v@);
                    },
                    None => {
                        assert(out@ =~= before_cell + Seq::empty());
                    },
                }
                proof {
                    lemma_concat_associative(
                        before_column,
                        column_mesh(c, w, z as int, x as int, y as int),
                        cell_mesh(c, w, x as int, y as int, z as int),
                    );
                }
                y = y + 1;
            }
            proof {
                lemma_concat_associative(
                    before_layer,
                    layer_mesh(c, w, z as int, x as int),
                    column_mesh(c, w, z as int, x as int, s as int),
                );
            }
            x = x + 1;
        }
        z = z + 1;
    }
    out
}

} // verus!
