use voxel_engine::components::{
    DebugDisplay, HeldItem, InputState, LoadingState, MapSelectState, MouseGrabbed, NetEntityId, NetworkPriority,
    Owner, UiScreen, WalkingState,
};
use voxel_engine::systems::{
    character_bvh_system, mesh_rebuild_system, split_mesh_builds, streaming_system, MeshBuildResult, PendingMeshBuilds,
};
use voxel_engine::chunk::{ChunkPosition, LodNodeKey, MeshKey};
use voxel_engine::collision::CollisionWorld;
use voxel_engine::resources::{WorldGenResource, WorldResource};

struct Empty;

impl CollisionWorld for Empty {
    fn is_solid(&self, _x: i32, _y: i32, _z: i32) -> bool {
        false
    }

    fn solid(&self, x: i32, y: i32, z: i32) -> bool {
        self.is_solid(x, y, z)
    }
}

#[test]
fn input_state_queries() {
    let mut s = InputState::default();
    assert!(!s.is_moving());
    assert_eq!(s.movement_axes(), (0, 0));
    s.left = true;
    s.forward = true;
    assert!(s.is_moving());
    assert_eq!(s.movement_axes(), (-1, 1));
    s.right = true;
    assert_eq!(s.movement_axes(), (0, 1));
    assert!(!s.wants_up());
    s.jump = true;
    assert!(s.wants_up());
    s.down = true;
    assert!(s.wants_down());
}

#[test]
fn network_components() {
    assert_eq!(Owner::local(7), Owner { player_id: 7, is_local: true });
    assert_eq!(Owner::remote(9), Owner::new(9, false));
    assert_eq!(NetEntityId::new(42).id, 42);
    assert_eq!(NetworkPriority::default(), NetworkPriority::Medium);
}

#[test]
fn held_item_hidden_mesh_lists() {
    assert_eq!(HeldItem::Empty.hidden_meshes(), vec!["weapon".to_string()]);
    assert_eq!(HeldItem::Pickaxe.hidden_meshes(), vec!["rifle".to_string(), "pistol".to_string()]);
    assert_eq!(HeldItem::Rifle.hidden_meshes(), vec!["pickaxe".to_string(), "pistol".to_string()]);
    assert_eq!(HeldItem::Pistol.hidden_meshes(), vec!["pickaxe".to_string(), "rifle".to_string()]);
    assert_eq!(HeldItem::Melee.hidden_meshes().len(), 3);
}

#[test]
fn ui_component_defaults() {
    assert_eq!(UiScreen::default(), UiScreen::MainMenu);
    assert!(!DebugDisplay::default().enabled);
    assert!(!MouseGrabbed::default().grabbed);
    let m = MapSelectState::default();
    assert!(m.available_maps.is_empty() && m.selected_index.is_none() && m.selected_path.is_none());
    let mut l = LoadingState::new("Loading".to_string());
    assert!(!l.update_progress(0, 0));
    assert!(l.update_progress(3, 10));
    assert_eq!((l.completed_items, l.total_items), (3, 10));
}

#[test]
fn mesh_rebuild_plans_loading_batches() {
    let sys = mesh_rebuild_system();
    let mut world = WorldResource::new(Empty);
    let mut gen = WorldGenResource::default();
    for i in 0..300 {
        gen.mesh_tasks.push(MeshKey::Chunk(ChunkPosition::new(i, 0, 0)));
    }
    gen.mesh_tasks_total = 300;
    world.mark_dirty(ChunkPosition::new(0, 9, 0));
    let w = sys.plan(&mut world, &mut gen);
    assert!(w.loading);
    assert_eq!(w.keys.len(), 256);
    assert_eq!(w.keys[0], MeshKey::Chunk(ChunkPosition::new(0, 0, 0)));
    assert_eq!(gen.mesh_tasks.len(), 44);
    assert_eq!(gen.completed, 256);
    assert_eq!(world.dirty_chunks.len(), 1);
    let w = sys.plan(&mut world, &mut gen);
    assert_eq!(w.keys.len(), 44);
    assert_eq!(gen.completed, 300);
}

#[test]
fn mesh_rebuild_plans_dirty_chunks() {
    let sys = mesh_rebuild_system();
    let mut world = WorldResource::new(Empty);
    let mut gen = WorldGenResource::default();
    for i in 0..10 {
        world.mark_dirty(ChunkPosition::new(i, 0, 0));
    }
    let w = sys.plan(&mut world, &mut gen);
    assert!(!w.loading);
    assert_eq!(w.keys.len(), 8);
    assert_eq!(world.dirty_chunks.len(), 2);
    let w = sys.plan(&mut world, &mut gen);
    assert_eq!(w.keys.len(), 2);
    assert!(world.dirty_chunks.is_empty());
}

#[test]
fn streaming_system_releases_player() {
    let sys = streaming_system();
    let mut world = WorldResource::new(Empty);
    world.chunks_ready = false;
    sys.run(&mut world);
    assert!(!world.chunks_ready);
    world.use_streaming = true;
    sys.run(&mut world);
    assert!(world.chunks_ready);
}

#[test]
fn bvh_rebuild_needed_when_dirty_or_walking() {
    let sys = character_bvh_system();
    let idle = WalkingState { is_walking: false, is_sprinting: false };
    let walking = WalkingState { is_walking: true, is_sprinting: false };
    assert!(!sys.needs_rebuild(0, &vec![idle]));
    assert!(sys.needs_rebuild(1, &vec![idle]));
    assert!(sys.needs_rebuild(0, &vec![idle, walking]));
}

#[test]
fn split_builds() {
    let lod = MeshKey::LodNode(LodNodeKey { x: 0, y: 0, z: 0, lod_level: 3 });
    let a = MeshKey::Chunk(ChunkPosition::new(1, 1, 1));
    let mut pending: PendingMeshBuilds<u8> = PendingMeshBuilds::default();
    pending.builds.push(MeshBuildResult { key: a, vertices: vec![] });
    pending.builds.push(MeshBuildResult { key: lod, vertices: vec![1, 2, 3] });
    let s = split_mesh_builds(pending.builds);
    assert_eq!(s.removals, vec![a]);
    assert_eq!(s.uploads.len(), 1);
    assert_eq!(s.uploads[0].key, lod);
}
