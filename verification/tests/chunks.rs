use voxel_engine::chunk::{ChunkPosition, ChunkSet, LodNodeKey, MeshKey};
use voxel_engine::resources::{MeshGenerationResource, MeshStorage, WorldResource, GameState, ScreenState,
    VsyncMode, SaveLoadState, SaveLoadResource, LodMeshResource, WorldGenResource, CHUNKS_PER_FRAME, MAX_INFLIGHT};
use voxel_engine::collision::CollisionWorld;

struct Floor;

impl CollisionWorld for Floor {
    fn is_solid(&self, _x: i32, y: i32, _z: i32) -> bool {
        y < 0
    }

    fn solid(&self, x: i32, y: i32, z: i32) -> bool {
        self.is_solid(x, y, z)
    }
}

#[test]
fn chunk_set_insert_contains_remove() {
    let mut s = ChunkSet::new();
    assert!(s.is_empty());
    let p = ChunkPosition::new(1, -2, 3);
    assert!(s.insert(p));
    assert!(!s.insert(p));
    assert!(s.contains(&p));
    assert_eq!(s.len(), 1);
    assert!(!s.contains(&ChunkPosition::new(1, 2, 3)));
    assert!(s.remove(&p));
    assert!(!s.remove(&p));
    assert!(s.is_empty());
}

#[test]
fn chunk_set_extreme_coordinates_stay_distinct() {
    let mut s = ChunkSet::new();
    let a = ChunkPosition::new(i32::MIN, i32::MAX, 0);
    let b = ChunkPosition::new(i32::MAX, i32::MIN, 0);
    let c = ChunkPosition::new(0, 0, i32::MIN);
    s.insert(a);
    s.insert(b);
    s.insert(c);
    assert_eq!(s.len(), 3);
    let mut v = s.to_vec();
    v.sort_by_key(|p| (p.x, p.y, p.z));
    assert_eq!(v, vec![a, c, b]);
}

#[test]
fn chunk_keys_are_distinct() {
    let a = ChunkPosition::new(0, 0, 1).key();
    let b = ChunkPosition::new(0, 1, 0).key();
    let c = ChunkPosition::new(1, 0, 0).key();
    assert!(a != b && b != c && a != c);
}

#[test]
fn mesh_keys_of_chunks_and_lod_nodes_differ() {
    let chunk = MeshKey::Chunk(ChunkPosition::new(1, 2, 3));
    let lod = MeshKey::LodNode(LodNodeKey { x: 1, y: 2, z: 3, lod_level: 0 });
    let lod1 = MeshKey::LodNode(LodNodeKey { x: 1, y: 2, z: 3, lod_level: 1 });
    assert!(chunk.code() != lod.code());
    assert!(lod.code() != lod1.code());
}

#[test]
fn mesh_storage_get_after_insert_and_remove() {
    let mut m: MeshStorage<&'static str> = MeshStorage::default();
    let k = MeshKey::Chunk(ChunkPosition::new(4, 5, 6));
    let other = MeshKey::LodNode(LodNodeKey { x: 4, y: 5, z: 6, lod_level: 2 });
    assert!(m.get(&k).is_none());
    m.insert(k, "a");
    m.insert(other, "b");
    assert_eq!(m.get(&k), Some(&"a"));
    m.insert(k, "c");
    assert_eq!(m.get(&k), Some(&"c"));
    assert_eq!(m.remove(&k), Some("c"));
    assert!(m.get(&k).is_none());
    assert_eq!(m.get(&other), Some(&"b"));
    assert_eq!(m.remove(&k), None);
}

#[test]
fn world_resource_dirty_tracking() {
    let mut w = WorldResource::new(Floor);
    assert!(!w.use_streaming);
    assert!(w.chunks_ready);
    let p = ChunkPosition::new(0, 0, 0);
    w.mark_dirty(p);
    w.mark_dirty(p);
    w.mark_dirty(ChunkPosition::new(1, 0, 0));
    let taken = w.take_dirty();
    assert_eq!(taken.len(), 2);
    assert!(taken.contains(&p));
    assert!(w.dirty_chunks.is_empty());
    assert!(w.is_solid(0, -1, 0));
    assert!(!w.is_solid(0, 0, 0));
}

#[test]
fn request_mesh_deduplicates_and_skips_inflight() {
    let mut g = MeshGenerationResource::default();
    let a = ChunkPosition::new(0, 0, 0);
    let b = ChunkPosition::new(1, 0, 0);
    g.request_mesh(a);
    g.request_mesh(a);
    assert_eq!(g.pending_queue.len(), 1);
    g.start_inflight(b);
    g.request_mesh(b);
    assert_eq!(g.pending_queue.len(), 1);
    assert!(!g.pending_set.contains(&b));
    g.complete_inflight(b);
    assert!(!g.inflight.contains(&b));
    g.request_mesh(b);
    assert_eq!(g.pending_queue.len(), 2);
    assert!(g.can_dispatch());
}

#[test]
fn inflight_cap_blocks_dispatch() {
    let mut g = MeshGenerationResource::default();
    for i in 0..MAX_INFLIGHT as i32 {
        g.start_inflight(ChunkPosition::new(i, 0, 0));
    }
    assert!(!g.can_dispatch());
    assert_eq!(CHUNKS_PER_FRAME, 8);
}

#[test]
fn resource_defaults() {
    assert_eq!(GameState::default(), GameState::Menu);
    assert_eq!(ScreenState::default(), ScreenState::MainMenu);
    assert_eq!(VsyncMode::default(), VsyncMode::Enabled);
    assert_eq!(SaveLoadState::default(), SaveLoadState::Idle);
    assert_eq!(SaveLoadResource::default().operation, SaveLoadState::Idle);
    assert!(LodMeshResource::default().tasks.is_empty());
    let g = WorldGenResource::default();
    assert_eq!(g.completed, 0);
    assert_eq!(g.total, 0);
    assert!(!g.is_complete);
    assert!(g.message.is_empty());
}
