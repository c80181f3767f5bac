use vstd::prelude::*;
use crate::block::{Block, tag_of};
use crate::chunk::{
    Chunk, cell_index, in_bounds, lemma_cell_index_bounds, lemma_cell_index_injective, MAX_CHUNK_COORD,
    MAX_CHUNK_SIZE,
};
use crate::mesh::{
    Vertex, block_mesh, cell_mesh, chunk_mesh, column_mesh, exposed, exposed_count, face_corners,
    face_dir, faces_upto, layer_mesh, layers_mesh, origin, quad,
};
use crate::world::{neighbour_key, step, wrap};

verus! {

proof fn lemma_faces_upto_shape(
    c: Chunk,
    w: Map<(i64, i64, i64), Chunk>,
    x: int,
    y: int,
    z: int,
    tag: u8,
    n: int,
)
    requires
        0 <= n <= 6,
    ensures
        faces_upto(c, w, x, y, z, tag, n).len() == 6 * exposed_count(c, w, x, y, z, n),
        0 <= exposed_count(c, w, x, y, z, n) <= n,
        forall|i: int|
            0 <= i < faces_upto(c, w, x, y, z, tag, n).len() ==> (#[trigger] faces_upto(
                c,
                w,
                x,
                y,
                z,
                tag,
                n,
            )[i]).tag == tag,
    decreases n,
{
    if n > 0 {
        lemma_faces_upto_shape(c, w, x, y, z, tag, n - 1);
    }
}

/// The faces up to `n` are a prefix of the faces up to any later `m`.
proof fn lemma_faces_upto_prefix(
    c: Chunk,
    w: Map<(i64, i64, i64), Chunk>,
    x: int,
    y: int,
    z: int,
    tag: u8,
    n: int,
    m: int,
)
    requires
        0 <= n <= m <= 6,
    ensures
        faces_upto(c, w, x, y, z, tag, n).len() <= faces_upto(c, w, x, y, z, tag, m).len(),
        faces_upto(c, w, x, y, z, tag, m).take(faces_upto(c, w, x, y, z, tag, n).len() as int)
            == faces_upto(c, w, x, y, z, tag, n),
    decreases m - n,
{
    if n < m {
        lemma_faces_upto_prefix(c, w, x, y, z, tag, n, m - 1);
        let a = faces_upto(c, w, x, y, z, tag, m - 1);
        let b = faces_upto(c, w, x, y, z, tag, m);
        let p = faces_upto(c, w, x, y, z, tag, n);
        assert(b.take(p.len() as int) =~= a.take(p.len() as int));
    } else {
        let p = faces_upto(c, w, x, y, z, tag, n);
        assert(p.take(p.len() as int) =~= p);
    }
}

/// Every block yields six vertices for each exposed face: a multiple of six,
/// at most thirty-six, all tagged with the block's kind.
pub proof fn lemma_face_count(c: Chunk, w: Map<(i64, i64, i64), Chunk>, x: int, y: int, z: int, b: Block)
    ensures
        block_mesh(c, w, x, y, z, b).len() == 6 * exposed_count(c, w, x, y, z, 6),
        0 <= exposed_count(c, w, x, y, z, 6) <= 6,
        block_mesh(c, w, x, y, z, b).len() % 6 == 0,
        block_mesh(c, w, x, y, z, b).len() <= 36,
        forall|i: int|
            0 <= i < block_mesh(c, w, x, y, z, b).len() ==> (#[trigger] block_mesh(c, w, x, y, z, b)[i]).tag
                == tag_of(b),
{
    lemma_faces_upto_shape(c, w, x, y, z, tag_of(b), 6);
}

/// An exposed face `f` appears whole in the block's mesh, after the six
/// vertices of each earlier exposed face.
pub proof fn lemma_exposed_face_emitted(
    c: Chunk,
    w: Map<(i64, i64, i64), Chunk>,
    x: int,
    y: int,
    z: int,
    b: Block,
    f: int,
)
    requires
        0 <= f < 6,
        exposed(c, w, x, y, z, f),
    ensures
        block_mesh(c, w, x, y, z, b).subrange(
            6 * exposed_count(c, w, x, y, z, f),
            6 * exposed_count(c, w, x, y, z, f) + 6,
        ) == quad(f, origin(c, x, y, z).0, origin(c, x, y, z).1, origin(c, x, y, z).2, tag_of(b)),
{
    let tag = tag_of(b);
    lemma_faces_upto_shape(c, w, x, y, z, tag, f);
    lemma_faces_upto_prefix(c, w, x, y, z, tag, f + 1, 6);
    let all = block_mesh(c, w, x, y, z, b);
    let upto = faces_upto(c, w, x, y, z, tag, f + 1);
    let start = 6 * exposed_count(c, w, x, y, z, f);
    assert(all.subrange(start, start + 6) =~= upto.subrange(start, start + 6));
    assert(upto.subrange(start, start + 6) =~= quad(
        f,
        origin(c, x, y, z).0,
        origin(c, x, y, z).1,
        origin(c, x, y, z).2,
        tag,
    ));
}

/// A block none of whose six neighbouring cells is occupied yields all six
/// faces: thirty-six vertices, all with the block's tag.
pub proof fn lemma_isolated_block(c: Chunk, w: Map<(i64, i64, i64), Chunk>, x: int, y: int, z: int, b: Block)
    requires
        forall|f: int| 0 <= f < 6 ==> #[trigger] exposed(c, w, x, y, z, f),
    ensures
        block_mesh(c, w, x, y, z, b).len() == 36,
        forall|i: int| 0 <= i < 36 ==> (#[trigger] block_mesh(c, w, x, y, z, b)[i]).tag == tag_of(b),
{
    assert(exposed(c, w, x, y, z, 0) && exposed(c, w, x, y, z, 1) && exposed(c, w, x, y, z, 2)
        && exposed(c, w, x, y, z, 3) && exposed(c, w, x, y, z, 4) && exposed(c, w, x, y, z, 5));
    assert(exposed_count(c, w, x, y, z, 6) == 6) by {
        reveal_with_fuel(exposed_count, 7);
    }
    lemma_face_count(c, w, x, y, z, b);
}

/// A block all six of whose neighbouring cells are occupied yields nothing.
pub proof fn lemma_enclosed_block(c: Chunk, w: Map<(i64, i64, i64), Chunk>, x: int, y: int, z: int, b: Block)
    requires
        forall|f: int|
            0 <= f < 6 ==> (#[trigger] c.query(w, x + face_dir(f).0, y + face_dir(f).1, z + face_dir(f).2)).is_some(),
    ensures
        block_mesh(c, w, x, y, z, b) == Seq::<Vertex>::empty(),
{
    assert(!exposed(c, w, x, y, z, 0) && !exposed(c, w, x, y, z, 1) && !exposed(c, w, x, y, z, 2)
        && !exposed(c, w, x, y, z, 3) && !exposed(c, w, x, y, z, 4) && !exposed(c, w, x, y, z, 5)) by {
        assert(c.query(w, x + face_dir(0).0, y + face_dir(0).1, z + face_dir(0).2).is_some());
        assert(c.query(w, x + face_dir(1).0, y + face_dir(1).1, z + face_dir(1).2).is_some());
        assert(c.query(w, x + face_dir(2).0, y + face_dir(2).1, z + face_dir(2).2).is_some());
        assert(c.query(w, x + face_dir(3).0, y + face_dir(3).1, z + face_dir(3).2).is_some());
        assert(c.query(w, x + face_dir(4).0, y + face_dir(4).1, z + face_dir(4).2).is_some());
        assert(c.query(w, x + face_dir(5).0, y + face_dir(5).1, z + face_dir(5).2).is_some());
    }
    assert(exposed_count(c, w, x, y, z, 6) == 0) by {
        reveal_with_fuel(exposed_count, 7);
    }
    lemma_face_count(c, w, x, y, z, b);
    assert(block_mesh(c, w, x, y, z, b) =~= Seq::<Vertex>::empty());
}

/// Across a chunk border into a loaded chunk, face `f` of a block is exposed
/// exactly when the neighbouring chunk's cell at the wrapped coordinates is
/// empty, and an exposed face is emitted whole: clearing that cell brings the
/// face back on the next pass.
pub proof fn lemma_boundary_face(c: Chunk, w: Map<(i64, i64, i64), Chunk>, x: int, y: int, z: int, b: Block, f: int)
    requires
        0 <= f < 6,
        in_bounds(c.size as int, x, y, z),
        !in_bounds(c.size as int, x + face_dir(f).0, y + face_dir(f).1, z + face_dir(f).2),
        w.contains_key(
            neighbour_key(c.coords, c.size as int, x + face_dir(f).0, y + face_dir(f).1, z + face_dir(f).2),
        ),
    ensures
        exposed(c, w, x, y, z, f) <==> w[neighbour_key(
            c.coords,
            c.size as int,
            x + face_dir(f).0,
            y + face_dir(f).1,
            z + face_dir(f).2,
        )].cell(
            wrap(c.size as int, x + face_dir(f).0),
            wrap(c.size as int, y + face_dir(f).1),
            wrap(c.size as int, z + face_dir(f).2),
        ).is_none(),
        exposed(c, w, x, y, z, f) ==> block_mesh(c, w, x, y, z, b).subrange(
            6 * exposed_count(c, w, x, y, z, f),
            6 * exposed_count(c, w, x, y, z, f) + 6,
        ) == quad(f, origin(c, x, y, z).0, origin(c, x, y, z).1, origin(c, x, y, z).2, tag_of(b)),
{
    if exposed(c, w, x, y, z, f) {
        lemma_exposed_face_emitted(c, w, x, y, z, b, f);
    }
}

/// A face whose neighbouring cell lies in a chunk that is not loaded is
/// never culled: it is exposed and emitted whole.
pub proof fn lemma_unloaded_neighbour(c: Chunk, w: Map<(i64, i64, i64), Chunk>, x: int, y: int, z: int, b: Block, f: int)
    requires
        0 <= f < 6,
        !in_bounds(c.size as int, x + face_dir(f).0, y + face_dir(f).1, z + face_dir(f).2),
        !w.contains_key(
            neighbour_key(c.coords, c.size as int, x + face_dir(f).0, y + face_dir(f).1, z + face_dir(f).2),
        ),
    ensures
        exposed(c, w, x, y, z, f),
        block_mesh(c, w, x, y, z, b).subrange(
            6 * exposed_count(c, w, x, y, z, f),
            6 * exposed_count(c, w, x, y, z, f) + 6,
        ) == quad(f, origin(c, x, y, z).0, origin(c, x, y, z).1, origin(c, x, y, z).2, tag_of(b)),
{
    lemma_exposed_face_emitted(c, w, x, y, z, b, f);
}

proof fn lemma_faces_upto_in_cube(c: Chunk, w: Map<(i64, i64, i64), Chunk>, x: int, y: int, z: int, tag: u8, n: int)
    requires
        c.wf(),
        in_bounds(c.size as int, x, y, z),
        0 <= n <= 6,
    ensures
        forall|i: int|
            0 <= i < faces_upto(c, w, x, y, z, tag, n).len() ==> {
                let v = #[trigger] faces_upto(c, w, x, y, z, tag, n)[i];
                let o = origin(c, x, y, z);
                &&& o.0 <= v.x <= o.0 + 1
                &&& o.1 <= v.y <= o.1 + 1
                &&& o.2 <= v.z <= o.2 + 1
            },
    decreases n,
{
    if n > 0 {
        lemma_faces_upto_in_cube(c, w, x, y, z, tag, n - 1);
        let o = origin(c, x, y, z);
        let s = c.size as int;
        assert(-MAX_CHUNK_COORD * MAX_CHUNK_SIZE <= c.coords.0 * s <= MAX_CHUNK_COORD * MAX_CHUNK_SIZE
            && -MAX_CHUNK_COORD * MAX_CHUNK_SIZE <= c.coords.1 * s <= MAX_CHUNK_COORD * MAX_CHUNK_SIZE
            && -MAX_CHUNK_COORD * MAX_CHUNK_SIZE <= c.coords.2 * s <= MAX_CHUNK_COORD * MAX_CHUNK_SIZE)
            by (nonlinear_arith)
            requires
                1 <= s <= MAX_CHUNK_SIZE,
                -MAX_CHUNK_COORD <= c.coords.0 <= MAX_CHUNK_COORD,
                -MAX_CHUNK_COORD <= c.coords.1 <= MAX_CHUNK_COORD,
                -MAX_CHUNK_COORD <= c.coords.2 <= MAX_CHUNK_COORD,
        ;
        let f = n - 1;
        assert forall|k: int| 0 <= k < 6 implies {
            let d = #[trigger] face_corners(f)[k];
            0 <= d.0 <= 1 && 0 <= d.1 <= 1 && 0 <= d.2 <= 1
        } by {}
        let q = quad(f, o.0, o.1, o.2, tag);
        assert forall|k: int| 0 <= k < 6 implies {
            let v = #[trigger] q[k];
            &&& o.0 <= v.x <= o.0 + 1
            &&& o.1 <= v.y <= o.1 + 1
            &&& o.2 <= v.z <= o.2 + 1
        } by {
            let d = face_corners(f)[k];
            assert(0 <= d.0 <= 1 && 0 <= d.1 <= 1 && 0 <= d.2 <= 1);
        }
        let prev = faces_upto(c, w, x, y, z, tag, n - 1);
        let all = faces_upto(c, w, x, y, z, tag, n);
        assert forall|i: int| 0 <= i < all.len() implies {
            let v = #[trigger] all[i];
            &&& o.0 <= v.x <= o.0 + 1
            &&& o.1 <= v.y <= o.1 + 1
            &&& o.2 <= v.z <= o.2 + 1
        } by {
            if i < prev.len() {
                assert(all[i] == prev[i]);
            } else {
                assert(all[i] == q[i - prev.len()]);
            }
        }
    }
}

/// Every vertex of a block's mesh lies on the unit cube of that block: each
/// coordinate is the block's world position along that axis or one more.
pub proof fn lemma_mesh_in_unit_cube(c: Chunk, w: Map<(i64, i64, i64), Chunk>, x: int, y: int, z: int, b: Block)
    requires
        c.wf(),
        in_bounds(c.size as int, x, y, z),
    ensures
        forall|i: int|
            0 <= i < block_mesh(c, w, x, y, z, b).len() ==> {
                let v = #[trigger] block_mesh(c, w, x, y, z, b)[i];
                let o = origin(c, x, y, z);
                &&& v.x == o.0 || v.x == o.0 + 1
                &&& v.y == o.1 || v.y == o.1 + 1
                &&& v.z == o.2 || v.z == o.2 + 1
                &&& v.tag == tag_of(b)
            },
{
    lemma_faces_upto_in_cube(c, w, x, y, z, tag_of(b), 6);
    lemma_face_count(c, w, x, y, z, b);
}

/// Two chunks with the same place, edge and cell contents, which therefore
/// answer every occupancy query alike.
pub open spec fn same_chunk(c1: Chunk, c2: Chunk) -> bool {
    c1.coords == c2.coords && c1.size == c2.size && c1.cells@ == c2.cells@
}

proof fn lemma_same_faces(c1: Chunk, c2: Chunk, w: Map<(i64, i64, i64), Chunk>, x: int, y: int, z: int, tag: u8, n: int)
    requires
        same_chunk(c1, c2),
    ensures
        faces_upto(c1, w, x, y, z, tag, n) == faces_upto(c2, w, x, y, z, tag, n),
    decreases n,
{
    if n > 0 {
        lemma_same_faces(c1, c2, w, x, y, z, tag, n - 1);
        assert(exposed(c1, w, x, y, z, n - 1) == exposed(c2, w, x, y, z, n - 1));
    }
}

proof fn lemma_same_column(c1: Chunk, c2: Chunk, w: Map<(i64, i64, i64), Chunk>, z: int, x: int, n: int)
    requires
        same_chunk(c1, c2),
    ensures
        column_mesh(c1, w, z, x, n) == column_mesh(c2, w, z, x, n),
    decreases n,
{
    if n > 0 {
        lemma_same_column(c1, c2, w, z, x, n - 1);
        assert(c1.cell(x, n - 1, z) == c2.cell(x, n - 1, z));
        if let Some(b) = c1.cell(x, n - 1, z) {
            lemma_same_faces(c1, c2, w, x, n - 1, z, tag_of(b), 6);
        }
        assert(cell_mesh(c1, w, x, n - 1, z) == cell_mesh(c2, w, x, n - 1, z));
    }
}

proof fn lemma_same_layer(c1: Chunk, c2: Chunk, w: Map<(i64, i64, i64), Chunk>, z: int, n: int)
    requires
        same_chunk(c1, c2),
    ensures
        layer_mesh(c1, w, z, n) == layer_mesh(c2, w, z, n),
    decreases n,
{
    if n > 0 {
        lemma_same_layer(c1, c2, w, z, n - 1);
        lemma_same_column(c1, c2, w, z, n - 1, c1.size as int);
    }
}

proof fn lemma_same_layers(c1: Chunk, c2: Chunk, w: Map<(i64, i64, i64), Chunk>, n: int)
    requires
        same_chunk(c1, c2),
    ensures
        layers_mesh(c1, w, n) == layers_mesh(c2, w, n),
    decreases n,
{
    if n > 0 {
        lemma_same_layers(c1, c2, w, n - 1);
        lemma_same_layer(c1, c2, w, n - 1, c1.size as int);
    }
}

/// Meshing depends on nothing but the chunk's place, edge and cell contents
/// and on the loaded world: an unchanged chunk yields the same vertex
/// sequence, value for value and in the same order, for each block and as a
/// whole.
pub proof fn lemma_mesh_deterministic(c1: Chunk, c2: Chunk, w: Map<(i64, i64, i64), Chunk>)
    requires
        same_chunk(c1, c2),
    ensures
        chunk_mesh(c1, w) == chunk_mesh(c2, w),
        forall|x: int, y: int, z: int, b: Block|
            #[trigger] block_mesh(c1, w, x, y, z, b) == block_mesh(c2, w, x, y, z, b),
{
    lemma_same_layers(c1, c2, w, c1.size as int);
    assert forall|x: int, y: int, z: int, b: Block|
        #[trigger] block_mesh(c1, w, x, y, z, b) == block_mesh(c2, w, x, y, z, b) by {
        lemma_same_faces(c1, c2, w, x, y, z, tag_of(b), 6);
    }
}

/// Each face lies on the side of the block's unit cube that looks toward the
/// neighbour it is culled against: along that axis every corner sits at 0 for
/// a negative direction and at 1 for a positive one.
pub proof fn lemma_face_on_its_side(f: int)
    requires
        0 <= f < 6,
    ensures
        forall|k: int|
            0 <= k < 6 ==> {
                let d = face_dir(f);
                let p = #[trigger] face_corners(f)[k];
                &&& d.0 != 0 ==> p.0 == if d.0 > 0 { 1int } else { 0 }
                &&& d.1 != 0 ==> p.1 == if d.1 > 0 { 1int } else { 0 }
                &&& d.2 != 0 ==> p.2 == if d.2 > 0 { 1int } else { 0 }
            },
{
}

/// The cross product of two vectors.
pub open spec fn cross(a: (int, int, int), b: (int, int, int)) -> (int, int, int) {
    (a.1 * b.2 - a.2 * b.1, a.2 * b.0 - a.0 * b.2, a.0 * b.1 - a.1 * b.0)
}

pub open spec fn minus(a: (int, int, int), b: (int, int, int)) -> (int, int, int) {
    (a.0 - b.0, a.1 - b.1, a.2 - b.2)
}

/// The normal of the triangle formed by corners `t`, `t + 1`, `t + 2` of face `f`.
pub open spec fn triangle_normal(f: int, t: int) -> (int, int, int) {
    let c = face_corners(f);
    cross(minus(c[t + 1], c[t]), minus(c[t + 2], c[t]))
}

/// All faces are wound alike: the normal of each of a face's two triangles,
/// taken from the order of its corners, is the unit step toward the
/// neighbour that the face is culled against, so it points out of the block.
pub proof fn lemma_consistent_winding(f: int)
    requires
        0 <= f < 6,
    ensures
        triangle_normal(f, 0) == face_dir(f),
        triangle_normal(f, 3) == face_dir(f),
{
    if f == 0 {
        assert(face_corners(0)[0] == (0int, 0int, 0int));
        assert(face_corners(0)[1] == (0int, 0int, 1int));
        assert(face_corners(0)[2] == (0int, 1int, 0int));
        assert(face_corners(0)[3] == (0int, 1int, 0int));
        assert(face_corners(0)[4] == (0int, 0int, 1int));
        assert(face_corners(0)[5] == (0int, 1int, 1int));
        assert(cross(minus((0int, 0int, 1int), (0int, 0int, 0int)), minus((0int, 1int, 0int), (0int, 0int, 0int))) == (-1int, 0int, 0int)) by (nonlinear_arith);
        assert(cross(minus((0int, 0int, 1int), (0int, 1int, 0int)), minus((0int, 1int, 1int), (0int, 1int, 0int))) == (-1int, 0int, 0int)) by (nonlinear_arith);
    } else if f == 1 {
        assert(face_corners(1)[0] == (1int, 0int, 0int));
        assert(face_corners(1)[1] == (1int, 1int, 0int));
        assert(face_corners(1)[2] == (1int, 0int, 1int));
        assert(face_corners(1)[3] == (1int, 1int, 0int));
        assert(face_corners(1)[4] == (1int, 1int, 1int));
        assert(face_corners(1)[5] == (1int, 0int, 1int));
        assert(cross(minus((1int, 1int, 0int), (1int, 0int, 0int)), minus((1int, 0int, 1int), (1int, 0int, 0int))) == (1int, 0int, 0int)) by (nonlinear_arith);
        assert(cross(minus((1int, 1int, 1int), (1int, 1int, 0int)), minus((1int, 0int, 1int), (1int, 1int, 0int))) == (1int, 0int, 0int)) by (nonlinear_arith);
    } else if f == 2 {
        assert(face_corners(2)[0] == (0int, 0int, 0int));
        assert(face_corners(2)[1] == (1int, 0int, 0int));
        assert(face_corners(2)[2] == (1int, 0int, 1int));
        assert(face_corners(2)[3] == (1int, 0int, 1int));
        assert(face_corners(2)[4] == (0int, 0int, 1int));
        assert(face_corners(2)[5] == (0int, 0int, 0int));
        assert(cross(minus((1int, 0int, 0int), (0int, 0int, 0int)), minus((1int, 0int, 1int), (0int, 0int, 0int))) == (0int, -1int, 0int)) by (nonlinear_arith);
        assert(cross(minus((0int, 0int, 1int), (1int, 0int, 1int)), minus((0int, 0int, 0int), (1int, 0int, 1int))) == (0int, -1int, 0int)) by (nonlinear_arith);
    } else if f == 3 {
        assert(face_corners(3)[0] == (0int, 1int, 0int));
        assert(face_corners(3)[1] == (1int, 1int, 1int));
        assert(face_corners(3)[2] == (1int, 1int, 0int));
        assert(face_corners(3)[3] == (1int, 1int, 1int));
        assert(face_corners(3)[4] == (0int, 1int, 0int));
        assert(face_corners(3)[5] == (0int, 1int, 1int));
        assert(cross(minus((1int, 1int, 1int), (0int, 1int, 0int)), minus((1int, 1int, 0int), (0int, 1int, 0int))) == (0int, 1int, 0int)) by (nonlinear_arith);
        assert(cross(minus((0int, 1int, 0int), (1int, 1int, 1int)), minus((0int, 1int, 1int), (1int, 1int, 1int))) == (0int, 1int, 0int)) by (nonlinear_arith);
    } else if f == 4 {
        assert(face_corners(4)[0] == (0int, 0int, 0int));
        assert(face_corners(4)[1] == (0int, 1int, 0int));
        assert(face_corners(4)[2] == (1int, 0int, 0int));
        assert(face_corners(4)[3] == (1int, 0int, 0int));
        assert(face_corners(4)[4] == (0int, 1int, 0int));
        assert(face_corners(4)[5] == (1int, 1int, 0int));
        assert(cross(minus((0int, 1int, 0int), (0int, 0int, 0int)), minus((1int, 0int, 0int), (0int, 0int, 0int))) == (0int, 0int, -1int)) by (nonlinear_arith);
        assert(cross(minus((0int, 1int, 0int), (1int, 0int, 0int)), minus((1int, 1int, 0int), (1int, 0int, 0int))) == (0int, 0int, -1int)) by (nonlinear_arith);
    } else {
        assert(face_corners(5)[0] == (0int, 0int, 1int));
        assert(face_corners(5)[1] == (1int, 0int, 1int));
        assert(face_corners(5)[2] == (0int, 1int, 1int));
        assert(face_corners(5)[3] == (1int, 0int, 1int));
        assert(face_corners(5)[4] == (1int, 1int, 1int));
        assert(face_corners(5)[5] == (0int, 1int, 1int));
        assert(cross(minus((1int, 0int, 1int), (0int, 0int, 1int)), minus((0int, 1int, 1int), (0int, 0int, 1int))) == (0int, 0int, 1int)) by (nonlinear_arith);
        assert(cross(minus((1int, 1int, 1int), (1int, 0int, 1int)), minus((0int, 1int, 1int), (1int, 0int, 1int))) == (0int, 0int, 1int)) by (nonlinear_arith);
    }
}

proof fn lemma_same_faces_in_worlds(
    c: Chunk,
    w1: Map<(i64, i64, i64), Chunk>,
    w2: Map<(i64, i64, i64), Chunk>,
    x: int,
    y: int,
    z: int,
    tag: u8,
    n: int,
)
    requires
        0 <= n <= 6,
        forall|f: int| 0 <= f < 6 ==> exposed(c, w1, x, y, z, f) == #[trigger] exposed(c, w2, x, y, z, f),
    ensures
        faces_upto(c, w1, x, y, z, tag, n) == faces_upto(c, w2, x, y, z, tag, n),
    decreases n,
{
    if n > 0 {
        lemma_same_faces_in_worlds(c, w1, w2, x, y, z, tag, n - 1);
        assert(exposed(c, w1, x, y, z, n - 1) == exposed(c, w2, x, y, z, n - 1));
    }
}

proof fn lemma_count_one_more(
    c: Chunk,
    w1: Map<(i64, i64, i64), Chunk>,
    w2: Map<(i64, i64, i64), Chunk>,
    x: int,
    y: int,
    z: int,
    d: int,
    n: int,
)
    requires
        0 <= d < 6,
        0 <= n <= 6,
        forall|f: int| 0 <= f < 6 && f != d ==> exposed(c, w1, x, y, z, f) == #[trigger] exposed(c, w2, x, y, z, f),
        !exposed(c, w1, x, y, z, d),
        exposed(c, w2, x, y, z, d),
    ensures
        exposed_count(c, w2, x, y, z, n) == exposed_count(c, w1, x, y, z, n) + if n > d { 1int } else { 0 },
    decreases n,
{
    if n > 0 {
        lemma_count_one_more(c, w1, w2, x, y, z, d, n - 1);
        if n - 1 != d {
            assert(exposed(c, w1, x, y, z, n - 1) == exposed(c, w2, x, y, z, n - 1));
        }
    }
}

/// From `w1` to `w2` face `d` of cell `(px, py, pz)` of `c` becomes exposed
/// and every other face of every cell of `c` keeps its exposure.
pub open spec fn one_face_opened(
    c: Chunk,
    w1: Map<(i64, i64, i64), Chunk>,
    w2: Map<(i64, i64, i64), Chunk>,
    px: int,
    py: int,
    pz: int,
    d: int,
) -> bool {
    &&& forall|qx: int, qy: int, qz: int, f: int|
        #![trigger exposed(c, w1, qx, qy, qz, f)]
        #![trigger exposed(c, w2, qx, qy, qz, f)]
        in_bounds(c.size as int, qx, qy, qz) && 0 <= f < 6 && !(qx == px && qy == py && qz == pz && f == d)
            ==> exposed(c, w1, qx, qy, qz, f) == exposed(c, w2, qx, qy, qz, f)
    &&& !exposed(c, w1, px, py, pz, d)
    &&& exposed(c, w2, px, py, pz, d)
}

proof fn lemma_column_grows(
    c: Chunk,
    w1: Map<(i64, i64, i64), Chunk>,
    w2: Map<(i64, i64, i64), Chunk>,
    px: int,
    py: int,
    pz: int,
    d: int,
    z: int,
    x: int,
    n: int,
)
    requires
        0 <= d < 6,
        in_bounds(c.size as int, px, py, pz),
        c.cell(px, py, pz).is_some(),
        one_face_opened(c, w1, w2, px, py, pz, d),
        0 <= z < c.size,
        0 <= x < c.size,
        0 <= n <= c.size,
    ensures
        column_mesh(c, w2, z, x, n).len() == column_mesh(c, w1, z, x, n).len() + if z == pz && x == px && py
            < n {
            6int
        } else {
            0
        },
    decreases n,
{
    if n > 0 {
        lemma_column_grows(c, w1, w2, px, py, pz, d, z, x, n - 1);
        let y = n - 1;
        if let Some(b) = c.cell(x, y, z) {
            if x == px && y == py && z == pz {
                lemma_count_one_more(c, w1, w2, x, y, z, d, 6);
                lemma_face_count(c, w1, x, y, z, b);
                lemma_face_count(c, w2, x, y, z, b);
            } else {
                assert forall|f: int| 0 <= f < 6 implies exposed(c, w1, x, y, z, f) == #[trigger] exposed(
                    c,
                    w2,
                    x,
                    y,
                    z,
                    f,
                ) by {}
                lemma_same_faces_in_worlds(c, w1, w2, x, y, z, tag_of(b), 6);
            }
        }
    }
}

proof fn lemma_layer_grows(
    c: Chunk,
    w1: Map<(i64, i64, i64), Chunk>,
    w2: Map<(i64, i64, i64), Chunk>,
    px: int,
    py: int,
    pz: int,
    d: int,
    z: int,
    n: int,
)
    requires
        0 <= d < 6,
        in_bounds(c.size as int, px, py, pz),
        c.cell(px, py, pz).is_some(),
        one_face_opened(c, w1, w2, px, py, pz, d),
        0 <= z < c.size,
        0 <= n <= c.size,
    ensures
        layer_mesh(c, w2, z, n).len() == layer_mesh(c, w1, z, n).len() + if z == pz && px < n {
            6int
        } else {
            0
        },
    decreases n,
{
    if n > 0 {
        lemma_layer_grows(c, w1, w2, px, py, pz, d, z, n - 1);
        lemma_column_grows(c, w1, w2, px, py, pz, d, z, n - 1, c.size as int);
    }
}

proof fn lemma_layers_grow(
    c: Chunk,
    w1: Map<(i64, i64, i64), Chunk>,
    w2: Map<(i64, i64, i64), Chunk>,
    px: int,
    py: int,
    pz: int,
    d: int,
    n: int,
)
    requires
        0 <= d < 6,
        in_bounds(c.size as int, px, py, pz),
        c.cell(px, py, pz).is_some(),
        one_face_opened(c, w1, w2, px, py, pz, d),
        0 <= n <= c.size,
    ensures
        layers_mesh(c, w2, n).len() == layers_mesh(c, w1, n).len() + if pz < n { 6int } else { 0 },
    decreases n,
{
    if n > 0 {
        lemma_layers_grow(c, w1, w2, px, py, pz, d, n - 1);
        lemma_layer_grows(c, w1, w2, px, py, pz, d, n - 1, c.size as int);
    }
}

/// Opening a single face of an occupied cell, and nothing else, adds exactly
/// six vertices to the chunk's mesh.
pub proof fn lemma_opened_face_adds_six(
    c: Chunk,
    w1: Map<(i64, i64, i64), Chunk>,
    w2: Map<(i64, i64, i64), Chunk>,
    px: int,
    py: int,
    pz: int,
    d: int,
)
    requires
        0 <= d < 6,
        in_bounds(c.size as int, px, py, pz),
        c.cell(px, py, pz).is_some(),
        one_face_opened(c, w1, w2, px, py, pz, d),
    ensures
        chunk_mesh(c, w2).len() == chunk_mesh(c, w1).len() + 6,
{
    lemma_layers_grow(c, w1, w2, px, py, pz, d, c.size as int);
}

proof fn lemma_untouched_face(
    c: Chunk,
    w1: Map<(i64, i64, i64), Chunk>,
    nb: Chunk,
    px: int,
    py: int,
    pz: int,
    d: int,
    qx: int,
    qy: int,
    qz: int,
    f: int,
)
    requires
        c.wf(),
        0 <= d < 6,
        0 <= f < 6,
        in_bounds(c.size as int, px, py, pz),
        in_bounds(c.size as int, qx, qy, qz),
        !(qx == px && qy == py && qz == pz && f == d),
        !in_bounds(c.size as int, px + face_dir(d).0, py + face_dir(d).1, pz + face_dir(d).2),
        ({
            let k = neighbour_key(c.coords, c.size as int, px + face_dir(d).0, py + face_dir(d).1, pz + face_dir(d).2);
            let s = c.size as int;
            &&& w1.contains_key(k)
            &&& w1[k].wf()
            &&& w1[k].size == c.size
            &&& nb.size == c.size
            &&& nb.cells@ == w1[k].cells@.update(
                cell_index(s, wrap(s, px + face_dir(d).0), wrap(s, py + face_dir(d).1), wrap(s, pz + face_dir(d).2)),
                None,
            )
        }),
    ensures
        exposed(c, w1, qx, qy, qz, f) == exposed(
            c,
            w1.insert(
                neighbour_key(c.coords, c.size as int, px + face_dir(d).0, py + face_dir(d).1, pz + face_dir(d).2),
                nb,
            ),
            qx,
            qy,
            qz,
            f,
        ),
{
    let s = c.size as int;
    let (tx, ty, tz) = (px + face_dir(d).0, py + face_dir(d).1, pz + face_dir(d).2);
    let (vx, vy, vz) = (qx + face_dir(f).0, qy + face_dir(f).1, qz + face_dir(f).2);
    let k = neighbour_key(c.coords, s, tx, ty, tz);
    let w2 = w1.insert(k, nb);
    if !in_bounds(s, vx, vy, vz) {
        let kv = neighbour_key(c.coords, s, vx, vy, vz);
        if kv == k {
            assert(step(s, vx) == step(s, tx) && step(s, vy) == step(s, ty) && step(s, vz) == step(s, tz));
            let (ax, ay, az) = (wrap(s, vx), wrap(s, vy), wrap(s, vz));
            let (bx, by, bz) = (wrap(s, tx), wrap(s, ty), wrap(s, tz));
            assert(in_bounds(s, ax, ay, az));
            assert(in_bounds(s, bx, by, bz));
            lemma_cell_index_bounds(s, ax, ay, az);
            if cell_index(s, ax, ay, az) == cell_index(s, bx, by, bz) {
                lemma_cell_index_injective(s, ax, ay, az, bx, by, bz);
                assert(vx == tx && vy == ty && vz == tz);
                assert(false);
            }
            lemma_cell_index_bounds(s, bx, by, bz);
            assert(w2[k] == nb);
            assert(nb.cells@[cell_index(s, ax, ay, az)] == w1[k].cells@[cell_index(s, ax, ay, az)]);
            assert(w2[k].cell(ax, ay, az) == w1[k].cell(ax, ay, az));
        }
    }
}

/// Clearing, in the loaded chunk across the border, the cell that face `d`
/// of an occupied cell looks at brings that face into the mesh and changes
/// no other face: the chunk's mesh grows by exactly six vertices.
pub proof fn lemma_cleared_neighbour_adds_face(
    c: Chunk,
    w1: Map<(i64, i64, i64), Chunk>,
    nb: Chunk,
    px: int,
    py: int,
    pz: int,
    d: int,
)
    requires
        c.wf(),
        0 <= d < 6,
        in_bounds(c.size as int, px, py, pz),
        c.cell(px, py, pz).is_some(),
        !in_bounds(c.size as int, px + face_dir(d).0, py + face_dir(d).1, pz + face_dir(d).2),
        ({
            let k = neighbour_key(c.coords, c.size as int, px + face_dir(d).0, py + face_dir(d).1, pz + face_dir(d).2);
            let s = c.size as int;
            let (bx, by, bz) = (wrap(s, px + face_dir(d).0), wrap(s, py + face_dir(d).1), wrap(s, pz + face_dir(d).2));
            &&& w1.contains_key(k)
            &&& w1[k].wf()
            &&& w1[k].size == c.size
            &&& w1[k].cell(bx, by, bz).is_some()
            &&& nb.size == c.size
            &&& nb.cells@ == w1[k].cells@.update(cell_index(s, bx, by, bz), None)
        }),
    ensures
        ({
            let k = neighbour_key(c.coords, c.size as int, px + face_dir(d).0, py + face_dir(d).1, pz + face_dir(d).2);
            let w2 = w1.insert(k, nb);
            &&& !exposed(c, w1, px, py, pz, d)
            &&& exposed(c, w2, px, py, pz, d)
            &&& chunk_mesh(c, w2).len() == chunk_mesh(c, w1).len() + 6
        }),
{
    let s = c.size as int;
    let k = neighbour_key(c.coords, s, px + face_dir(d).0, py + face_dir(d).1, pz + face_dir(d).2);
    let w2 = w1.insert(k, nb);
    let (bx, by, bz) = (wrap(s, px + face_dir(d).0), wrap(s, py + face_dir(d).1), wrap(s, pz + face_dir(d).2));
    assert(in_bounds(s, bx, by, bz));
    lemma_cell_index_bounds(s, bx, by, bz);
    assert(w2[k].cell(bx, by, bz).is_none());
    assert forall|qx: int, qy: int, qz: int, f: int|
        in_bounds(s, qx, qy, qz) && 0 <= f < 6 && !(qx == px && qy == py && qz == pz && f == d) implies #[trigger] exposed(
        c,
        w1,
        qx,
        qy,
        qz,
        f,
    ) == exposed(c, w2, qx, qy, qz, f) by {
        lemma_untouched_face(c, w1, nb, px, py, pz, d, qx, qy, qz, f);
    }
    assert(one_face_opened(c, w1, w2, px, py, pz, d));
    lemma_opened_face_adds_six(c, w1, w2, px, py, pz, d);
}

} // verus!
