use vstd::prelude::*;
use crate::mesh::{Vertex, chunk_mesh, gen_chunk_mesh};
use crate::world::World;

verus! {

/// Edge length of the chunks of the world a new renderer starts with.
pub const DEFAULT_CHUNK_SIZE: i64 = 16;

/// The vertex stream of one loaded chunk, ready to be handed to a GPU backend
/// as a triangle list.
pub struct ChunkMesh {
    pub coords: (i64, i64, i64),
    pub vertices: Vec<Vertex>,
}

/// Holds the world being drawn and, after each update, the mesh of every
/// loaded chunk.
pub struct Renderer {
    pub world: World,
    pub meshes: Vec<ChunkMesh>,
}

impl Renderer {
    pub open spec fn wf(&self) -> bool {
        self.world.wf()
    }

    /// A renderer over an empty world, with no meshes yet.
    pub fn new() -> (r: Renderer)
        ensures
            r.wf(),
            r.world.chunk_size == DEFAULT_CHUNK_SIZE,
            r.world@ == Map::<(i64, i64, i64), crate::chunk::Chunk>::empty(),
            r.meshes@.len() == 0,
    {
        Renderer { world: World::new(DEFAULT_CHUNK_SIZE), meshes: Vec::new() }
    }

    /// Replaces the world to draw; the meshes of the old one are dropped.
    pub fn add_world(&mut self, world: World)
        requires
            world.wf(),
        ensures
            final(self).wf(),
            final(self).world == world,
            final(self).meshes@.len() == 0,
    {
        self.world = world;
        self.meshes = Vec::new();
    }

    /// Rebuilds the mesh of every loaded chunk, one entry per chunk.
    pub fn update(&mut self)
        requires
            old(self).wf(),
        ensures
            final(self).wf(),
            final(self).world == old(self).world,
            final(self).meshes@.len() == old(self).world.chunks@.len(),
            forall|i: int|
                0 <= i < final(self).meshes@.len() ==> {
                    let m = #[trigger] final(self).meshes@[i];
                    &&& old(self).world@.contains_key(m.coords)
                    &&& m.vertices@ == chunk_mesh(old(self).world@[m.coords], old(self).world@)
                },
            forall|k: (i64, i64, i64)|
                #[trigger] old(self).world@.contains_key(k) ==> exists|i: int|
                    0 <= i < final(self).meshes@.len() && (#[trigger] final(self).meshes@[i]).coords == k,
            forall|i: int, j: int|
                0 <= i < j < final(self).meshes@.len() ==> (#[trigger] final(self).meshes@[i]).coords
                    != (#[trigger] final(self).meshes@[j]).coords,
    {
        let mut meshes: Vec<ChunkMesh> = Vec::new();
        let n = self.world.chunks.len();
        let mut i: usize = 0;
        while i < n
            invariant
                self.world.wf(),
                n == self.world.chunks@.len(),
                i <= n,
                meshes@.len() == i,
                forall|j: int|
                    0 <= j < i ==> {
                        let m = #[trigger] meshes@[j];
                        &&& m.coords == self.world.chunks@[j].coords
                        &&& m.vertices@ == chunk_mesh(self.world.chunks@[j], self.world@)
                    },
            decreases n - i,
        {
            let chunk = &self.world.chunks[i];
            let vertices = gen_chunk_mesh(chunk, &self.world);
            meshes.push(ChunkMesh { coords: chunk.coords, vertices });
            i = i + 1;
        }
        proof {
            let w = self.world;
            assert forall|j: int| 0 <= j < meshes@.len() implies {
                let m = #[trigger] meshes@[j];
                &&& w@.contains_key(m.coords)
                &&& m.vertices@ == chunk_mesh(w@[m.coords], w@)
            } by {
                w.lemma_view_at(j);
            }
            assert forall|k: (i64, i64, i64)| #[trigger] w@.contains_key(k) implies exists|j: int|
                0 <= j < meshes@.len() && (#[trigger] meshes@[j]).coords == k by {
                let j = choose|j: int| 0 <= j < w.chunks@.len() && (#[trigger] w.chunks@[j]).coords == k;
                assert(meshes@[j].coords == k);
            }
        }
        self.meshes = meshes;
    }
}

} // verus!
