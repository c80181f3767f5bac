use voxel_mesh::block::Block;
use voxel_mesh::chunk::Chunk;
use voxel_mesh::mesh::{gen_chunk_mesh, gen_vertex, Vertex};
use voxel_mesh::renderer::{Renderer, DEFAULT_CHUNK_SIZE};
use voxel_mesh::world::World;

fn chunk(coords: (i64, i64, i64), size: i64) -> Chunk {
    Chunk::new(coords, size).expect("valid chunk")
}

fn world_with(size: i64, chunks: Vec<Chunk>) -> World {
    let mut w = World::new(size);
    for c in chunks {
        assert!(w.insert(c).is_ok());
    }
    w
}

fn mesh_at(w: &World, k: (i64, i64, i64), x: i64, y: i64, z: i64) -> Vec<Vertex> {
    let c = w.get_chunk(k).expect("loaded chunk");
    let b = c.get_local(x, y, z).expect("occupied cell");
    gen_vertex(x, y, z, b, c, w)
}

fn v(x: i64, y: i64, z: i64, tag: u8) -> Vertex {
    Vertex { x, y, z, tag }
}

#[test]
fn isolated_block_emits_all_faces() {
    let mut c = chunk((0, 0, 0), 4);
    c.set_block(1, 1, 1, Some(Block::Stone));
    let w = world_with(4, vec![c]);
    let m = mesh_at(&w, (0, 0, 0), 1, 1, 1);
    assert_eq!(m.len(), 36);
    assert!(m.iter().all(|v| v.tag == 3));
}

#[test]
fn enclosed_block_emits_nothing() {
    let mut c = chunk((0, 0, 0), 3);
    c.set_block(1, 1, 1, Some(Block::Dirt));
    c.set_block(0, 1, 1, Some(Block::Sand));
    c.set_block(2, 1, 1, Some(Block::Sand));
    c.set_block(1, 0, 1, Some(Block::Sand));
    c.set_block(1, 2, 1, Some(Block::Sand));
    c.set_block(1, 1, 0, Some(Block::Sand));
    c.set_block(1, 1, 2, Some(Block::Sand));
    let w = world_with(3, vec![c]);
    assert_eq!(mesh_at(&w, (0, 0, 0), 1, 1, 1).len(), 0);
}

#[test]
fn vertex_count_is_six_per_exposed_face() {
    let mut c = chunk((0, 0, 0), 3);
    c.set_block(1, 1, 1, Some(Block::Grass));
    c.set_block(0, 1, 1, Some(Block::Grass));
    c.set_block(1, 2, 1, Some(Block::Grass));
    let w = world_with(3, vec![c]);
    let m = mesh_at(&w, (0, 0, 0), 1, 1, 1);
    assert_eq!(m.len(), 24);
    assert_eq!(m.len() % 6, 0);
    // Faces -X and +Y are hidden: the first emitted face is +X.
    assert_eq!(m[0], v(2, 1, 1, 2));
}

#[test]
fn negative_x_face_vertex_order() {
    let mut c = chunk((1, 0, -1), 2);
    c.set_block(0, 1, 0, Some(Block::Dirt));
    let w = world_with(2, vec![c]);
    let m = mesh_at(&w, (1, 0, -1), 0, 1, 0);
    // World origin of the block: (0 + 2, 1 + 0, 0 - 2).
    assert_eq!(
        m[0..6].to_vec(),
        vec![
            v(2, 1, -2, 1),
            v(2, 1, -1, 1),
            v(2, 2, -2, 1),
            v(2, 2, -2, 1),
            v(2, 1, -1, 1),
            v(2, 2, -1, 1),
        ]
    );
}

#[test]
fn z_faces_lie_on_their_own_planes() {
    let mut c = chunk((0, 0, 0), 4);
    c.set_block(1, 1, 1, Some(Block::Stone));
    c.set_block(1, 1, 2, Some(Block::Stone));
    let w = world_with(4, vec![c]);
    // Only the +Z face of the lower block is hidden.
    let m = mesh_at(&w, (0, 0, 0), 1, 1, 1);
    assert_eq!(m.len(), 30);
    assert_eq!(
        m[24..30].to_vec(),
        vec![v(1, 1, 1, 3), v(1, 2, 1, 3), v(2, 1, 1, 3), v(2, 1, 1, 3), v(1, 2, 1, 3), v(2, 2, 1, 3)]
    );
    // Only the -Z face of the upper block is hidden; its +Z face is at z + 1.
    let m = mesh_at(&w, (0, 0, 0), 1, 1, 2);
    assert_eq!(m.len(), 30);
    assert_eq!(
        m[24..30].to_vec(),
        vec![v(1, 1, 3, 3), v(2, 1, 3, 3), v(1, 2, 3, 3), v(2, 1, 3, 3), v(2, 2, 3, 3), v(1, 2, 3, 3)]
    );
}

#[test]
fn boundary_neighbour_hides_face_until_removed() {
    let mut a = chunk((0, 0, 0), 2);
    a.set_block(1, 0, 0, Some(Block::Stone));
    let mut b = chunk((1, 0, 0), 2);
    b.set_block(0, 0, 0, Some(Block::Dirt));
    let mut w = world_with(2, vec![a, b]);
    let m = mesh_at(&w, (0, 0, 0), 1, 0, 0);
    assert_eq!(m.len(), 30);
    // -X is emitted first; +X is hidden, so -Y follows it.
    assert_eq!(m[6], v(1, 0, 0, 3));
    let before = gen_chunk_mesh(w.get_chunk((0, 0, 0)).unwrap(), &w).len();
    assert!(w.set_block((1, 0, 0), 0, 0, 0, None));
    let m = mesh_at(&w, (0, 0, 0), 1, 0, 0);
    assert_eq!(m.len(), 36);
    assert_eq!(m[6], v(2, 0, 0, 3));
    let after = gen_chunk_mesh(w.get_chunk((0, 0, 0)).unwrap(), &w).len();
    assert_eq!(after, before + 6);
}

#[test]
fn renderer_sees_cleared_border_cell() {
    let mut a = chunk((0, 0, 0), 2);
    a.set_block(0, 1, 1, Some(Block::Grass));
    let mut b = chunk((0, 0, 1), 2);
    b.set_block(0, 1, 0, Some(Block::Stone));
    let mut r = Renderer::new();
    r.add_world(world_with(2, vec![a, b]));
    r.update();
    let len_of = |r: &Renderer| r.meshes.iter().find(|m| m.coords == (0, 0, 0)).unwrap().vertices.len();
    assert_eq!(len_of(&r), 30);
    let mut w = World::new(2);
    std::mem::swap(&mut w, &mut r.world);
    assert!(w.set_block((0, 0, 1), 0, 1, 0, None));
    r.add_world(w);
    r.update();
    assert_eq!(len_of(&r), 36);
}

fn cross(a: (i64, i64, i64), b: (i64, i64, i64)) -> (i64, i64, i64) {
    (a.1 * b.2 - a.2 * b.1, a.2 * b.0 - a.0 * b.2, a.0 * b.1 - a.1 * b.0)
}

fn normal(p: &Vertex, q: &Vertex, r: &Vertex) -> (i64, i64, i64) {
    cross((q.x - p.x, q.y - p.y, q.z - p.z), (r.x - p.x, r.y - p.y, r.z - p.z))
}

#[test]
fn every_triangle_faces_outward() {
    let mut c = chunk((0, 0, 0), 3);
    c.set_block(1, 1, 1, Some(Block::Dirt));
    let w = world_with(3, vec![c]);
    let m = mesh_at(&w, (0, 0, 0), 1, 1, 1);
    let dirs = [(-1, 0, 0), (1, 0, 0), (0, -1, 0), (0, 1, 0), (0, 0, -1), (0, 0, 1)];
    for (f, d) in dirs.iter().enumerate() {
        let t = &m[6 * f..6 * f + 6];
        assert_eq!(normal(&t[0], &t[1], &t[2]), *d);
        assert_eq!(normal(&t[3], &t[4], &t[5]), *d);
    }
}

#[test]
fn boundary_lookup_below_zero() {
    let mut a = chunk((0, 0, 0), 2);
    a.set_block(0, 0, 0, Some(Block::Grass));
    let mut b = chunk((0, -1, 0), 2);
    b.set_block(0, 1, 0, Some(Block::Sand));
    let w = world_with(2, vec![a, b]);
    let c = w.get_chunk((0, 0, 0)).unwrap();
    assert_eq!(c.get_block(&w, 0, -1, 0), Some(Block::Sand));
    assert_eq!(c.get_block(&w, 0, 0, -1), None);
    assert_eq!(c.get_block(&w, -1, 0, 0), None);
    assert_eq!(mesh_at(&w, (0, 0, 0), 0, 0, 0).len(), 30);
}

#[test]
fn unloaded_neighbour_never_culls() {
    let mut a = chunk((5, 5, 5), 2);
    a.set_block(1, 1, 1, Some(Block::Dirt));
    a.set_block(0, 1, 1, Some(Block::Dirt));
    a.set_block(1, 0, 1, Some(Block::Dirt));
    a.set_block(1, 1, 0, Some(Block::Dirt));
    let w = world_with(2, vec![a]);
    let c = w.get_chunk((5, 5, 5)).unwrap();
    assert_eq!(c.get_block(&w, 2, 1, 1), None);
    // +X, +Y and +Z look into unloaded chunks and are all emitted.
    assert_eq!(mesh_at(&w, (5, 5, 5), 1, 1, 1).len(), 18);
}

#[test]
fn meshing_is_deterministic() {
    let mut a = chunk((0, 0, 0), 3);
    a.set_block(0, 0, 0, Some(Block::Dirt));
    a.set_block(1, 0, 0, Some(Block::Grass));
    a.set_block(2, 2, 2, Some(Block::Sand));
    let w = world_with(3, vec![a]);
    let c = w.get_chunk((0, 0, 0)).unwrap();
    let first = gen_chunk_mesh(c, &w);
    let second = gen_chunk_mesh(c, &w);
    assert_eq!(first, second);
    assert_eq!(first.len(), 30 + 30 + 36);
}

#[test]
fn single_block_in_small_chunk() {
    let mut a = chunk((0, 0, 0), 2);
    a.set_block(0, 0, 0, Some(Block::Grass));
    let w = world_with(2, vec![a]);
    let m = gen_chunk_mesh(w.get_chunk((0, 0, 0)).unwrap(), &w);
    assert_eq!(m.len(), 36);
    for v in &m {
        assert!(v.x == 0 || v.x == 1);
        assert!(v.y == 0 || v.y == 1);
        assert!(v.z == 0 || v.z == 1);
        assert_eq!(v.tag, Block::Grass.tag());
    }
}

#[test]
fn single_block_in_offset_chunk() {
    let mut a = chunk((-3, 2, 7), 2);
    a.set_block(0, 0, 0, Some(Block::Sand));
    let w = world_with(2, vec![a]);
    let m = gen_chunk_mesh(w.get_chunk((-3, 2, 7)).unwrap(), &w);
    assert_eq!(m.len(), 36);
    for v in &m {
        assert!(v.x == -6 || v.x == -5);
        assert!(v.y == 4 || v.y == 5);
        assert!(v.z == 14 || v.z == 15);
        assert_eq!(v.tag, 4);
    }
}

#[test]
fn block_tags() {
    assert_eq!(Block::Dirt.tag(), 1);
    assert_eq!(Block::Grass.tag(), 2);
    assert_eq!(Block::Stone.tag(), 3);
    assert_eq!(Block::Sand.tag(), 4);
}

#[test]
fn chunk_new_rejects_bad_sizes_and_coords() {
    assert!(Chunk::new((0, 0, 0), 0).is_none());
    assert!(Chunk::new((0, 0, 0), -4).is_none());
    assert!(Chunk::new((0, 0, 0), 1025).is_none());
    assert!(Chunk::new((0, 0, 0), 1024).is_some());
    assert!(Chunk::new((1 << 41, 0, 0), 4).is_none());
    assert!(Chunk::new((0, 0, -(1 << 40)), 4).is_some());
    let c = chunk((0, 0, 0), 3);
    assert_eq!(c.len(), 3);
    assert_eq!(c.get_local(2, 2, 2), None);
}

#[test]
fn set_block_replaces_and_clears() {
    let mut c = chunk((0, 0, 0), 2);
    c.set_block(1, 0, 1, Some(Block::Stone));
    assert_eq!(c.get_local(1, 0, 1), Some(Block::Stone));
    assert_eq!(c.get_local(0, 1, 1), None);
    c.set_block(1, 0, 1, None);
    assert_eq!(c.get_local(1, 0, 1), None);
}

#[test]
fn world_insert_replace_remove() {
    let mut w = World::new(2);
    assert!(!w.contains((0, 0, 0)));
    assert!(matches!(w.insert(chunk((0, 0, 0), 2)), Ok(None)));
    let mut other = chunk((0, 0, 0), 2);
    other.set_block(0, 0, 0, Some(Block::Dirt));
    let prev = w.insert(other).ok().unwrap().expect("replaced chunk");
    assert_eq!(prev.get_local(0, 0, 0), None);
    assert_eq!(w.get_chunk((0, 0, 0)).unwrap().get_local(0, 0, 0), Some(Block::Dirt));
    let wrong = chunk((1, 0, 0), 3);
    assert!(w.insert(wrong).is_err());
    assert!(!w.contains((1, 0, 0)));
    assert!(w.remove((0, 0, 0)).is_some());
    assert!(w.remove((0, 0, 0)).is_none());
    assert!(w.get_chunk((0, 0, 0)).is_none());
    assert!(!w.set_block((0, 0, 0), 0, 0, 0, None));
}

#[test]
fn renderer_meshes_every_loaded_chunk() {
    let mut r = Renderer::new();
    assert_eq!(r.world.chunk_size, DEFAULT_CHUNK_SIZE);
    r.update();
    assert!(r.meshes.is_empty());
    let mut a = chunk((0, 0, 0), 2);
    a.set_block(1, 1, 1, Some(Block::Stone));
    let mut b = chunk((-1, 0, 0), 2);
    b.set_block(1, 0, 0, Some(Block::Dirt));
    let c = chunk((4, 4, 4), 2);
    r.add_world(world_with(2, vec![a, b, c]));
    r.update();
    assert_eq!(r.meshes.len(), 3);
    let find = |k: (i64, i64, i64)| r.meshes.iter().find(|m| m.coords == k).unwrap();
    assert_eq!(find((0, 0, 0)).vertices.len(), 36);
    assert_eq!(find((-1, 0, 0)).vertices.len(), 36);
    assert_eq!(find((4, 4, 4)).vertices.len(), 0);
}
