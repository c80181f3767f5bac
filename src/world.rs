use vstd::prelude::*;
use crate::block::Block;
use crate::chunk::{Chunk, cell_index, in_bounds, valid_size, MAX_CHUNK_SIZE};

verus! {

/// The loaded chunks, each under its own chunk coordinates, all of one edge length.
pub struct World {
    pub chunk_size: i64,
    pub chunks: Vec<Chunk>,
}

/// Which way a local coordinate lies outside `[0, size)`: -1, 0 or 1.
pub open spec fn step(size: int, v: int) -> int {
    if v < 0 {
        -1
    } else if v >= size {
        1
    } else {
        0
    }
}

/// A local coordinate that may lie one unit outside its chunk.
pub open spec fn near_bounds(size: int, x: int, y: int, z: int) -> bool {
    -1 <= x <= size && -1 <= y <= size && -1 <= z <= size
}

impl World {
    pub open spec fn wf(&self) -> bool {
        &&& valid_size(self.chunk_size as int)
        &&& forall|i: int|
            0 <= i < self.chunks@.len() ==> {
                &&& (#[trigger] self.chunks@[i]).wf()
                &&& self.chunks@[i].size == self.chunk_size
            }
        &&& forall|i: int, j: int|
            0 <= i < self.chunks@.len() && 0 <= j < self.chunks@.len() && i != j
                ==> (#[trigger] self.chunks@[i]).coords != (#[trigger] self.chunks@[j]).coords
    }

    pub open spec fn has(&self, k: (i64, i64, i64)) -> bool {
        exists|i: int| 0 <= i < self.chunks@.len() && (#[trigger] self.chunks@[i]).coords == k
    }

    /// The loaded chunks by chunk coordinates; an absent key is an unloaded chunk.
    pub open spec fn view(&self) -> Map<(i64, i64, i64), Chunk> {
        Map::new(
            |k: (i64, i64, i64)| self.has(k),
            |k: (i64, i64, i64)|
                self.chunks@[choose|i: int|
                    0 <= i < self.chunks@.len() && (#[trigger] self.chunks@[i]).coords == k],
        )
    }

    /// The chunk stored at position `i` is the one the view holds under its coordinates.
    pub proof fn lemma_view_at(&self, i: int)
        requires
            self.wf(),
            0 <= i < self.chunks@.len(),
        ensures
            self@.contains_key(self.chunks@[i].coords),
            self@[self.chunks@[i].coords] == self.chunks@[i],
    {
        let k = self.chunks@[i].coords;
        assert(self.has(k));
        let j = choose|j: int| 0 <= j < self.chunks@.len() && (#[trigger] self.chunks@[j]).coords == k;
        assert(i == j);
    }

    /// An empty world whose chunks have edge `chunk_size`.
    pub fn new(chunk_size: i64) -> (r: World)
        requires
            valid_size(chunk_size as int),
        ensures
            r.wf(),
            r.chunk_size == chunk_size,
            r@ == Map::<(i64, i64, i64), Chunk>::empty(),
    {
        let r = World { chunk_size, chunks: Vec::new() };
        assert(r@ =~= Map::<(i64, i64, i64), Chunk>::empty());
        r
    }

    /// Whether the world satisfies its invariant (`wf`): every chunk valid and
    /// of the world's edge, and no two chunks at the same coordinates.
    pub fn is_valid(&self) -> (r: bool)
        ensures
            r == self.wf(),
    {
        if self.chunk_size < 1 || self.chunk_size > MAX_CHUNK_SIZE {
            return false;
        }
        let n = self.chunks.len();
        let mut i: usize = 0;
        while i < n
            invariant
                valid_size(self.chunk_size as int),
                n == self.chunks@.len(),
                i <= n,
                forall|a: int|
                    0 <= a < i ==> {
                        &&& (#[trigger] self.chunks@[a]).wf()
                        &&& self.chunks@[a].size == self.chunk_size
                    },
                forall|a: int, b: int|
                    0 <= a < i && 0 <= b < n && a != b ==> (#[trigger] self.chunks@[a]).coords
                        != (#[trigger] self.chunks@[b]).coords,
            decreases n - i,
        {
            let c = &self.chunks[i];
            if !c.is_valid() || c.size != self.chunk_size {
                return false;
            }
            let mut j: usize = 0;
            while j < n
                invariant
                    n == self.chunks@.len(),
                    i < n,
                    j <= n,
                    *c == self.chunks@[i as int],
                    forall|b: int|
                        0 <= b < j && b != i ==> (#[trigger] self.chunks@[b]).coords
                            != self.chunks@[i as int].coords,
                decreases n - j,
            {
                let d = self.chunks[j].coords;
                if j != i && d.0 == c.coords.0 && d.1 == c.coords.1 && d.2 == c.coords.2 {
                    return false;
                }
                j = j + 1;
            }
            i = i + 1;
        }
        true
    }

    /// Where the chunk at `k` sits in storage.
    fn find(&self, k: (i64, i64, i64)) -> (r: Option<usize>)
        requires
            self.wf(),
        ensures
            r matches Some(i) ==> i < self.chunks@.len() && self.chunks@[i as int].coords == k,
            r is None ==> !self@.contains_key(k),
    {
        let mut i: usize = 0;
        while i < self.chunks.len()
            invariant
                self.wf(),
                i <= self.chunks@.len(),
                forall|j: int| 0 <= j < i ==> (#[trigger] self.chunks@[j]).coords != k,
            decreases self.chunks@.len() - i,
        {
            let c = self.chunks[i].coords;
            if c.0 == k.0 && c.1 == k.1 && c.2 == k.2 {
                return Some(i);
            }
            i = i + 1;
        }
        None
    }

    /// Whether a chunk is loaded at `k`.
    pub fn contains(&self, k: (i64, i64, i64)) -> (r: bool)
        requires
            self.wf(),
        ensures
            r == self@.contains_key(k),
    {
        match self.find(k) {
            Some(i) => {
                proof {
                    self.lemma_view_at(i as int);
                }
                true
            },
            None => false,
        }
    }

    /// The chunk loaded at `k`, if any.
    pub fn get_chunk(&self, k: (i64, i64, i64)) -> (r: Option<&Chunk>)
        requires
            self.wf(),
        ensures
            r is None <==> !self@.contains_key(k),
            r matches Some(c) ==> self@.contains_key(k) && *c == self@[k],
    {
        match self.find(k) {
            Some(i) => {
                proof {
                    self.lemma_view_at(i as int);
                }
                Some(&self.chunks[i])
            },
            None => None,
        }
    }

    /// Loads `chunk` under its own coordinates, handing back the chunk it
    /// replaces. A chunk whose edge differs from the world's is refused and
    /// handed back unchanged.
    pub fn insert(&mut self, chunk: Chunk) -> (r: Result<Option<Chunk>, Chunk>)
        requires
            old(self).wf(),
            chunk.wf(),
        ensures
            final(self).wf(),
            final(self).chunk_size == old(self).chunk_size,
            chunk.size != old(self).chunk_size ==> {
                &&& r == Err::<Option<Chunk>, Chunk>(chunk)
                &&& final(self)@ == old(self)@
            },
            chunk.size == old(self).chunk_size ==> {
                &&& final(self)@ == old(self)@.insert(chunk.coords, chunk)
                &&& r == Ok::<Option<Chunk>, Chunk>(
                    if old(self)@.contains_key(chunk.coords) {
                        Some(old(self)@[chunk.coords])
                    } else {
                        None
                    },
                )
            },
    {
        if chunk.size != self.chunk_size {
            return Err(chunk);
        }
        let k = chunk.coords;
        let prev = self.remove(k);
        let ghost mid = *self;
        self.chunks.push(chunk);
        proof {
            let n = mid.chunks@.len() as int;
            assert(self.chunks@[n] == chunk);
            assert forall|i: int| 0 <= i < n implies self.chunks@[i] == #[trigger] mid.chunks@[i] by {}
            assert forall|i: int| 0 <= i < n implies #[trigger] mid.chunks@[i].coords != k by {
                mid.lemma_view_at(i);
            }
            assert forall|kk: (i64, i64, i64)| #[trigger] self@.contains_key(kk) == mid@.insert(k, chunk).contains_key(kk) by {
                if mid.has(kk) {
                    let i = choose|i: int| 0 <= i < n && (#[trigger] mid.chunks@[i]).coords == kk;
                    assert(self.chunks@[i].coords == kk);
                }
                if self.has(kk) && kk != k {
                    let i = choose|i: int| 0 <= i < n + 1 && (#[trigger] self.chunks@[i]).coords == kk;
                    assert(mid.chunks@[i].coords == kk);
                }
            }
            assert forall|kk: (i64, i64, i64)| #[trigger] self@.contains_key(kk) implies self@[kk] == mid@.insert(k, chunk)[kk] by {
                let i = choose|i: int| 0 <= i < n + 1 && (#[trigger] self.chunks@[i]).coords == kk;
                self.lemma_view_at(i);
                if i < n {
                    mid.lemma_view_at(i);
                }
            }
            assert(self@ =~= mid@.insert(k, chunk));
            assert(old(self)@.insert(k, chunk) =~= mid@.insert(k, chunk));
        }
        Ok(prev)
    }

    /// Unloads the chunk at `k`, handing it back.
    pub fn remove(&mut self, k: (i64, i64, i64)) -> (r: Option<Chunk>)
        requires
            old(self).wf(),
        ensures
            final(self).wf(),
            final(self).chunk_size == old(self).chunk_size,
            final(self)@ == old(self)@.remove(k),
            r == if old(self)@.contains_key(k) {
                Some(old(self)@[k])
            } else {
                None
            },
    {
        match self.find(k) {
            None => {
                assert(self@ =~= old(self)@.remove(k));
                None
            },
            Some(i) => {
                proof {
                    old(self).lemma_view_at(i as int);
                }
                let c = self.chunks.remove(i);
                proof {
                    let o = *old(self);
                    assert forall|j: int| 0 <= j < self.chunks@.len() implies #[trigger] self.chunks@[j]
                        == o.chunks@[if j < i { j } else { j + 1 }] by {}
                    assert forall|kk: (i64, i64, i64)| #[trigger] self@.contains_key(kk) == o@.remove(k).contains_key(kk) by {
                        if o.has(kk) && kk != k {
                            let j = choose|j: int| 0 <= j < o.chunks@.len() && (#[trigger] o.chunks@[j]).coords == kk;
                            assert(j != i);
                            let jj = if j < i { j } else { j - 1 };
                            assert(self.chunks@[jj].coords == kk);
                        }
                        if self.has(kk) {
                            let j = choose|j: int| 0 <= j < self.chunks@.len() && (#[trigger] self.chunks@[j]).coords == kk;
                            let jj = if j < i { j } else { j + 1 };
                            assert(o.chunks@[jj].coords == kk);
                        }
                    }
                    assert forall|kk: (i64, i64, i64)| #[trigger] self@.contains_key(kk) implies self@[kk] == o@.remove(k)[kk] by {
                        let j = choose|j: int| 0 <= j < self.chunks@.len() && (#[trigger] self.chunks@[j]).coords == kk;
                        self.lemma_view_at(j);
                        let jj = if j < i { j } else { j + 1 };
                        o.lemma_view_at(jj);
                    }
                    assert(self@ =~= o@.remove(k));
                }
                Some(c)
            },
        }
    }
    /// Places `b` at local position `(x, y, z)` of the chunk loaded at `k`;
    /// `false`, with nothing changed, when no chunk is loaded there.
    pub fn set_block(&mut self, k: (i64, i64, i64), x: i64, y: i64, z: i64, b: Option<Block>) -> (r: bool)
        requires
            old(self).wf(),
            in_bounds(old(self).chunk_size as int, x as int, y as int, z as int),
        ensures
            final(self).wf(),
            final(self).chunk_size == old(self).chunk_size,
            r == old(self)@.contains_key(k),
            final(self)@.dom() == old(self)@.dom(),
            forall|kk: (i64, i64, i64)|
                #[trigger] old(self)@.contains_key(kk) && kk != k ==> final(self)@[kk] == old(self)@[kk],
            r ==> final(self)@[k].coords == k && final(self)@[k].size == old(self).chunk_size,
            r ==> final(self)@[k].cells@ == old(self)@[k].cells@.update(
                cell_index(old(self).chunk_size as int, x as int, y as int, z as int),
                b,
            ),
            r ==> forall|a: int, b2: int, c: int|
                in_bounds(old(self).chunk_size as int, a, b2, c) ==> #[trigger] final(self)@[k].cell(a, b2, c)
                    == if a == x && b2 == y && c == z {
                    b
                } else {
                    old(self)@[k].cell(a, b2, c)
                },
    {
        match self.find(k) {
            None => {
                assert(self@ =~= old(self)@);
                false
            },
            Some(i) => {
                proof {
                    old(self).lemma_view_at(i as int);
                }
                self.chunks[i].set_block(x, y, z, b);
                proof {
                    let o = *old(self);
                    assert forall|j: int| 0 <= j < self.chunks@.len() && j != i implies #[trigger] self.chunks@[j]
                        == o.chunks@[j] by {}
                    assert forall|kk: (i64, i64, i64)| #[trigger] self.has(kk) == o.has(kk) by {
                        if o.has(kk) {
                            let j = choose|j: int| 0 <= j < o.chunks@.len() && (#[trigger] o.chunks@[j]).coords == kk;
                            assert(self.chunks@[j].coords == kk);
                        }
                        if self.has(kk) {
                            let j = choose|j: int| 0 <= j < self.chunks@.len() && (#[trigger] self.chunks@[j]).coords == kk;
                            assert(o.chunks@[j].coords == kk);
                        }
                    }
                    assert(self@.dom() =~= o@.dom());
                    self.lemma_view_at(i as int);
                    assert forall|kk: (i64, i64, i64)| #[trigger] o@.contains_key(kk) && kk != k implies self@[kk] == o@[kk] by {
                        let j = choose|j: int| 0 <= j < o.chunks@.len() && (#[trigger] o.chunks@[j]).coords == kk;
                        o.lemma_view_at(j);
                        self.lemma_view_at(j);
                    }
                }
                true
            },
        }
    }
}

impl Chunk {
    /// Occupancy at a local position at most one unit outside the chunk: an
    /// inside position reads this chunk; an outside one reads the neighbouring
    /// chunk that covers it, at the coordinate wrapped into that chunk, and is
    /// empty when no chunk is loaded there.
    pub open spec fn query(&self, world: Map<(i64, i64, i64), Chunk>, x: int, y: int, z: int) -> Option<Block> {
        let s = self.size as int;
        if in_bounds(s, x, y, z) {
            self.cell(x, y, z)
        } else {
            let k = neighbour_key(self.coords, s, x, y, z);
            if world.contains_key(k) {
                world[k].cell(wrap(s, x), wrap(s, y), wrap(s, z))
            } else {
                None
            }
        }
    }

    /// The block at a local position at most one unit outside this chunk,
    /// looking into the chunks of `world` across the border.
    pub fn get_block(&self, world: &World, x: i64, y: i64, z: i64) -> (r: Option<Block>)
        requires
            self.wf(),
            world.wf(),
            self.size == world.chunk_size,
            near_bounds(self.size as int, x as int, y as int, z as int),
        ensures
            r == self.query(world@, x as int, y as int, z as int),
    {
        let s = self.size;
        if 0 <= x && x < s && 0 <= y && y < s && 0 <= z && z < s {
            return self.get_local(x, y, z);
        }
        let (sx, lx) = step_and_wrap(s, x);
        let (sy, ly) = step_and_wrap(s, y);
        let (sz, lz) = step_and_wrap(s, z);
        let k = (self.coords.0 + sx, self.coords.1 + sy, self.coords.2 + sz);
        match world.get_chunk(k) {
            None => None,
            Some(n) => n.get_local(lx, ly, lz),
        }
    }
}

/// The chunk coordinates of the chunk that covers a local position near `coords`.
pub open spec fn neighbour_key(coords: (i64, i64, i64), size: int, x: int, y: int, z: int) -> (i64, i64, i64) {
    (
        (coords.0 + step(size, x)) as i64,
        (coords.1 + step(size, y)) as i64,
        (coords.2 + step(size, z)) as i64,
    )
}

/// A local coordinate at most one unit outside `[0, size)`, brought into it modulo `size`.
pub open spec fn wrap(size: int, v: int) -> int {
    v - step(size, v) * size
}

fn step_and_wrap(size: i64, v: i64) -> (r: (i64, i64))
    requires
        valid_size(size as int),
        -1 <= v <= size,
    ensures
        r.0 == step(size as int, v as int),
        r.1 == wrap(size as int, v as int),
        0 <= r.1 < size,
{
    if v < 0 {
        (-1, v + size)
    } else if v >= size {
        (1, v - size)
    } else {
        (0, v)
    }
}

} // verus!
