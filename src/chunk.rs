use vstd::prelude::*;
use crate::block::Block;

verus! {

/// The largest edge length a chunk may have; its cell count then fits any index type.
pub const MAX_CHUNK_SIZE: i64 = 1024;

/// The largest magnitude of a chunk coordinate; world positions then fit in `i64`.
pub const MAX_CHUNK_COORD: i64 = 0x100_0000_0000;

pub open spec fn valid_size(size: int) -> bool {
    1 <= size <= MAX_CHUNK_SIZE
}

pub open spec fn valid_coords(c: (i64, i64, i64)) -> bool {
    &&& -MAX_CHUNK_COORD <= c.0 <= MAX_CHUNK_COORD
    &&& -MAX_CHUNK_COORD <= c.1 <= MAX_CHUNK_COORD
    &&& -MAX_CHUNK_COORD <= c.2 <= MAX_CHUNK_COORD
}

/// Position of local cell `(x, y, z)` in the storage of a chunk of edge `size`.
pub open spec fn cell_index(size: int, x: int, y: int, z: int) -> int {
    (z * size + y) * size + x
}

pub open spec fn in_bounds(size: int, x: int, y: int, z: int) -> bool {
    0 <= x < size && 0 <= y < size && 0 <= z < size
}

pub proof fn lemma_cell_index_bounds(size: int, x: int, y: int, z: int)
    requires
        in_bounds(size, x, y, z),
    ensures
        0 <= cell_index(size, x, y, z) < size * size * size,
{
    assert(0 <= (z * size + y) * size + x < size * size * size) by (nonlinear_arith)
        requires
            0 <= x < size,
            0 <= y < size,
            0 <= z < size,
    ;
}

pub proof fn lemma_cell_index_injective(size: int, x: int, y: int, z: int, a: int, b: int, c: int)
    requires
        in_bounds(size, x, y, z),
        in_bounds(size, a, b, c),
        cell_index(size, x, y, z) == cell_index(size, a, b, c),
    ensures
        x == a && y == b && z == c,
{
    let p = z * size + y;
    let q = c * size + b;
    assert(p == q && x == a) by (nonlinear_arith)
        requires
            p * size + x == q * size + a,
            0 <= x < size,
            0 <= a < size,
    ;
    assert(z == c && y == b) by (nonlinear_arith)
        requires
            z * size + y == c * size + b,
            0 <= y < size,
            0 <= b < size,
    ;
}

/// Storage position of an in-bounds local cell.
fn index_of(size: i64, x: i64, y: i64, z: i64) -> (r: usize)
    requires
        valid_size(size as int),
        in_bounds(size as int, x as int, y as int, z as int),
    ensures
        r as int == cell_index(size as int, x as int, y as int, z as int),
        r < size * size * size,
{
    proof {
        lemma_cell_index_bounds(size as int, x as int, y as int, z as int);
        assert(0 <= z * size < MAX_CHUNK_SIZE * MAX_CHUNK_SIZE) by (nonlinear_arith)
            requires
                0 <= z < size,
                1 <= size <= MAX_CHUNK_SIZE,
        ;
        assert(0 <= (z * size + y) * size <= MAX_CHUNK_SIZE * MAX_CHUNK_SIZE * MAX_CHUNK_SIZE)
            by (nonlinear_arith)
            requires
                0 <= z < size,
                0 <= y < size,
                1 <= size <= MAX_CHUNK_SIZE,
        ;
    }
    ((z * size + y) * size + x) as usize
}

/// A cube of `size`³ cells, each holding a block or nothing, placed at
/// `coords` in chunk space.
pub struct Chunk {
    pub coords: (i64, i64, i64),
    pub size: i64,
    pub cells: Vec<Option<Block>>,
}

impl Chunk {
    pub open spec fn wf(&self) -> bool {
        &&& valid_size(self.size as int)
        &&& valid_coords(self.coords)
        &&& self.cells@.len() == self.size * self.size * self.size
    }

    /// What the chunk stores at local position `(x, y, z)`.
    pub open spec fn cell(&self, x: int, y: int, z: int) -> Option<Block> {
        self.cells@[cell_index(self.size as int, x, y, z)]
    }

    /// An empty chunk at `coords`, or `None` when the size or the
    /// coordinates are outside the supported range.
    pub fn new(coords: (i64, i64, i64), size: i64) -> (r: Option<Chunk>)
        ensures
            r.is_some() <==> valid_size(size as int) && valid_coords(coords),
            r matches Some(ch) ==> {
                &&& ch.wf()
                &&& ch.coords == coords
                &&& ch.size == size
                &&& forall|x: int, y: int, z: int|
                    in_bounds(size as int, x, y, z) ==> #[trigger] ch.cell(x, y, z).is_none()
            },
    {
        if size < 1 || size > MAX_CHUNK_SIZE {
            return None;
        }
        if coords.0 < -MAX_CHUNK_COORD || coords.0 > MAX_CHUNK_COORD || coords.1
            < -MAX_CHUNK_COORD || coords.1 > MAX_CHUNK_COORD || coords.2 < -MAX_CHUNK_COORD
            || coords.2 > MAX_CHUNK_COORD {
            return None;
        }
        assert(size * size <= MAX_CHUNK_SIZE * MAX_CHUNK_SIZE && size * size * size
            <= MAX_CHUNK_SIZE * MAX_CHUNK_SIZE * MAX_CHUNK_SIZE) by (nonlinear_arith)
            requires
                1 <= size <= MAX_CHUNK_SIZE,
        ;
        let n: usize = (size * size * size) as usize;
        let mut cells: Vec<Option<Block>> = Vec::with_capacity(n);
        let mut i: usize = 0;
        while i < n
            invariant
                i <= n,
                cells@.len() == i,
                forall|j: int| 0 <= j < i ==> (#[trigger] cells@[j]).is_none(),
            decreases n - i,
        {
            cells.push(None);
            i = i + 1;
        }
        let ch = Chunk { coords, size, cells };
        assert forall|x: int, y: int, z: int| in_bounds(size as int, x, y, z) implies #[trigger] ch.cell(
            x,
            y,
            z,
        ).is_none() by {
            lemma_cell_index_bounds(size as int, x, y, z);
        }
        Some(ch)
    }

    /// Whether the chunk satisfies its invariant (`wf`).
    pub fn is_valid(&self) -> (r: bool)
        ensures
            r == self.wf(),
    {
        if self.size < 1 || self.size > MAX_CHUNK_SIZE {
            return false;
        }
        let c = self.coords;
        if c.0 < -MAX_CHUNK_COORD || c.0 > MAX_CHUNK_COORD || c.1 < -MAX_CHUNK_COORD || c.1
            > MAX_CHUNK_COORD || c.2 < -MAX_CHUNK_COORD || c.2 > MAX_CHUNK_COORD {
            return false;
        }
        let s = self.size;
        assert(s * s <= MAX_CHUNK_SIZE * MAX_CHUNK_SIZE && s * s * s <= MAX_CHUNK_SIZE
            * MAX_CHUNK_SIZE * MAX_CHUNK_SIZE) by (nonlinear_arith)
            requires
                1 <= s <= MAX_CHUNK_SIZE,
        ;
        self.cells.len() == (s * s * s) as usize
    }

    /// The edge length of the chunk.
    pub fn len(&self) -> (r: i64)
        ensures
            r == self.size,
    {
        self.size
    }

    /// The block stored at a local position inside the chunk.
    pub fn get_local(&self, x: i64, y: i64, z: i64) -> (r: Option<Block>)
        requires
            self.wf(),
            in_bounds(self.size as int, x as int, y as int, z as int),
        ensures
            r == self.cell(x as int, y as int, z as int),
    {
        let i = index_of(self.size, x, y, z);
        self.cells[i]
    }

    /// Places `b` at a local position inside the chunk (`None` clears it).
    pub fn set_block(&mut self, x: i64, y: i64, z: i64, b: Option<Block>)
        requires
            old(self).wf(),
            in_bounds(old(self).size as int, x as int, y as int, z as int),
        ensures
            final(self).wf(),
            final(self).coords == old(self).coords,
            final(self).size == old(self).size,
            final(self).cells@ == old(self).cells@.update(
                cell_index(old(self).size as int, x as int, y as int, z as int),
                b,
            ),
            forall|a: int, b2: int, c: int|
                in_bounds(old(self).size as int, a, b2, c) ==> #[trigger] final(self).cell(a, b2, c)
                    == if a == x && b2 == y && c == z {
                    b
                } else {
                    old(self).cell(a, b2, c)
                },
    {
        let i = index_of(self.size, x, y, z);
        self.cells.set(i, b);
        proof {
            assert forall|a: int, b2: int, c: int|
                in_bounds(old(self).size as int, a, b2, c) implies #[trigger] final(self).cell(a, b2, c)
                    == if a == x && b2 == y && c == z {
                    b
                } else {
                    old(self).cell(a, b2, c)
                } by {
                lemma_cell_index_bounds(self.size as int, a, b2, c);
                if cell_index(self.size as int, a, b2, c) == cell_index(self.size as int, x as int, y as int, z as int) {
                    lemma_cell_index_injective(self.size as int, a, b2, c, x as int, y as int, z as int);
                }
            }
        }
    }
}

} // verus!
