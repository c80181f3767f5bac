//! Visible-face meshing for a chunked voxel world.
//!
//! A `World` holds cubic `Chunk`s of optional `Block`s keyed by their chunk
//! coordinates. The mesh generator turns each occupied block into the quads of
//! its exposed faces, consulting neighbouring chunks across chunk borders and
//! treating space that no loaded chunk covers as empty.

pub mod block;
pub mod chunk;
pub mod world;
pub mod mesh;
pub mod mesh_facts;
pub mod renderer;
