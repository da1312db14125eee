use voxel_engine::chunk::{ChunkPosition, ChunkSet, LodNodeKey, MeshKey};
use voxel_engine::collision::CollisionWorld;
use voxel_engine::resources::{MeshGenerationResource, MeshStorage, WorldResource, MAX_INFLIGHT};
use voxel_engine::streaming::{
    apply_unload_requests, chunk_center_column, chunk_distance_sq, dispatch_cap, lod_dispatch_cap,
    mesh_dispatch_cap, nearby_chunks_ready, plan_mesh_dispatch, ready_check_positions, remove_lod_meshes,
    sort_by_distance, RebuildWork, StreamingLimits,
};
use voxel_engine::ui_state::PerformancePreset;

struct Empty;

impl CollisionWorld for Empty {
    fn is_solid(&self, _x: i32, _y: i32, _z: i32) -> bool {
        false
    }

    fn solid(&self, x: i32, y: i32, z: i32) -> bool {
        self.is_solid(x, y, z)
    }
}

fn cp(x: i32, y: i32, z: i32) -> ChunkPosition {
    ChunkPosition::new(x, y, z)
}

fn set_of(ps: &[ChunkPosition]) -> ChunkSet {
    let mut s = ChunkSet::new();
    for p in ps {
        s.insert(*p);
    }
    s
}

#[test]
fn distance_is_exact_for_far_chunks() {
    assert_eq!(chunk_distance_sq(&cp(3, 4, 0), &cp(0, 0, 0)), 25);
    let d = chunk_distance_sq(&cp(i32::MAX, 0, 0), &cp(i32::MIN, 0, 0));
    assert_eq!(d, (u32::MAX as u128) * (u32::MAX as u128));
}

#[test]
fn sort_by_distance_is_stable_and_closest_first() {
    let c = cp(0, 0, 0);
    let v = vec![cp(2, 0, 0), cp(0, 1, 0), cp(-2, 0, 0), cp(1, 0, 0), cp(0, 0, 0)];
    let r = sort_by_distance(&v, &c);
    assert_eq!(r, vec![cp(0, 0, 0), cp(0, 1, 0), cp(1, 0, 0), cp(2, 0, 0), cp(-2, 0, 0)]);
    assert!(sort_by_distance(&vec![], &c).is_empty());
}

#[test]
fn preset_limits() {
    let p = StreamingLimits::for_preset(PerformancePreset::Potato);
    assert_eq!((p.max_mesh_uploads_per_frame, p.mesh_dispatch_multiplier, p.mesh_dispatch_min, p.mesh_dispatch_max), (20, 2, 8, 32));
    assert_eq!((p.max_loads_per_frame, p.max_mesh_rebuilds_per_frame), (24, 48));
    assert_eq!(p.lod_distances, [96, 384, 640, 896, 1152, 1408]);
    let b = StreamingLimits::for_preset(PerformancePreset::Balanced);
    assert_eq!((b.max_mesh_uploads_per_frame, b.mesh_dispatch_multiplier, b.mesh_dispatch_min, b.mesh_dispatch_max), (32, 3, 12, 48));
    assert_eq!(b.lod_distances, [160, 640, 960, 1280, 1600, 2048]);
    let h = StreamingLimits::for_preset(PerformancePreset::High);
    assert_eq!((h.max_loads_per_frame, h.max_mesh_rebuilds_per_frame), (48, 96));
    assert_eq!(h.lod_distances, [224, 768, 1152, 1536, 1920, 2304]);
}

#[test]
fn dispatch_cap_clamps() {
    assert_eq!(dispatch_cap(2, 2, 8, 32), 8);
    assert_eq!(dispatch_cap(8, 3, 12, 48), 24);
    assert_eq!(dispatch_cap(64, 4, 16, 64), 64);
    assert_eq!(dispatch_cap(usize::MAX, 2, 8, 32), 32);
}

#[test]
fn dispatch_caps_from_the_thread_pool_stay_in_bounds() {
    let limits = StreamingLimits::for_preset(PerformancePreset::Balanced);
    let cap = mesh_dispatch_cap(&limits);
    assert!(cap >= 12 && cap <= 48);
    let threads = rayon::current_num_threads();
    assert_eq!(cap, (threads * 3).clamp(12, 48));
    let lod = lod_dispatch_cap();
    assert_eq!(lod, threads.clamp(4, 16));
}

#[test]
fn plan_dispatch_skips_and_stops() {
    let player = cp(0, 0, 0);
    let requests = vec![cp(5, 0, 0), cp(1, 0, 0), cp(2, 0, 0), cp(3, 0, 0), cp(4, 0, 0)];
    let mut inflight = set_of(&[cp(2, 0, 0)]);
    let unavailable = set_of(&[cp(3, 0, 0)]);
    let present = set_of(&[cp(1, 0, 0), cp(2, 0, 0), cp(5, 0, 0)]);
    let plan = plan_mesh_dispatch(&requests, &player, &mut inflight, 2, &unavailable, &present);
    assert_eq!(plan.dispatch, vec![cp(1, 0, 0), cp(5, 0, 0)]);
    assert_eq!(plan.air, vec![cp(4, 0, 0)]);
    assert!(inflight.contains(&cp(1, 0, 0)) && inflight.contains(&cp(5, 0, 0)));
    assert_eq!(inflight.len(), 3);
}

#[test]
fn plan_dispatch_respects_budget() {
    let player = cp(0, 0, 0);
    let requests = vec![cp(1, 0, 0), cp(2, 0, 0), cp(3, 0, 0)];
    let mut inflight = ChunkSet::new();
    let present = set_of(&requests);
    let plan = plan_mesh_dispatch(&requests, &player, &mut inflight, 1, &ChunkSet::new(), &present);
    assert_eq!(plan.dispatch, vec![cp(1, 0, 0)]);
    assert!(plan.air.is_empty());
}

#[test]
fn plan_dispatch_stops_at_inflight_cap() {
    let player = cp(0, 0, 0);
    let mut inflight = ChunkSet::new();
    for i in 0..MAX_INFLIGHT as i32 {
        inflight.insert(cp(100 + i, 0, 0));
    }
    let requests = vec![cp(1, 0, 0)];
    let plan = plan_mesh_dispatch(&requests, &player, &mut inflight, 10, &ChunkSet::new(), &set_of(&requests));
    assert!(plan.dispatch.is_empty());
    assert_eq!(inflight.len(), MAX_INFLIGHT);
}

#[test]
fn rebuild_streaming_batch() {
    let mut world = WorldResource::new(Empty);
    let mut g = MeshGenerationResource::default();
    for x in 0..10 {
        world.mark_dirty(cp(10 - x, 0, 0));
    }
    g.start_inflight(cp(1, 0, 0));
    let present = set_of(&[cp(1, 0, 0), cp(2, 0, 0), cp(4, 0, 0), cp(5, 0, 0), cp(6, 0, 0), cp(7, 0, 0), cp(8, 0, 0), cp(9, 0, 0)]);
    let work = g.rebuild_dirty_meshes(&mut world, &cp(0, 0, 0), true, &present);
    assert!(world.dirty_chunks.is_empty());
    match work {
        RebuildWork::Background(b) => {
            assert_eq!(b.dispatched, vec![cp(2, 0, 0), cp(4, 0, 0), cp(5, 0, 0), cp(6, 0, 0), cp(7, 0, 0), cp(8, 0, 0)]);
            assert_eq!(b.dropped, vec![cp(3, 0, 0)]);
        }
        _ => panic!("expected background work"),
    }
    assert_eq!(g.pending_queue.len(), 2);
    assert_eq!(g.pending_queue[0], cp(9, 0, 0));
    assert!(g.inflight.contains(&cp(8, 0, 0)));
}

#[test]
fn rebuild_sync_batch_and_nothing() {
    let mut world = WorldResource::new(Empty);
    let mut g = MeshGenerationResource::default();
    let work = g.rebuild_dirty_meshes(&mut world, &cp(0, 0, 0), false, &ChunkSet::new());
    assert!(matches!(work, RebuildWork::Nothing));
    world.mark_dirty(cp(0, 0, 3));
    world.mark_dirty(cp(0, 0, 1));
    let work = g.rebuild_dirty_meshes(&mut world, &cp(0, 0, 0), false, &ChunkSet::new());
    match work {
        RebuildWork::Sync(v) => assert_eq!(v, vec![cp(0, 0, 1), cp(0, 0, 3)]),
        _ => panic!("expected a synchronous batch"),
    }
    assert!(g.pending_queue.is_empty());
    assert!(g.pending_set.is_empty());
}

#[test]
fn dispatch_requeues_at_inflight_cap() {
    let mut g = MeshGenerationResource::default();
    for i in 0..MAX_INFLIGHT as i32 {
        g.start_inflight(cp(1000 + i, 0, 0));
    }
    g.request_mesh(cp(1, 0, 0));
    g.request_mesh(cp(2, 0, 0));
    let b = g.dispatch_streaming_batch(&set_of(&[cp(1, 0, 0), cp(2, 0, 0)]));
    assert!(b.dispatched.is_empty());
    assert_eq!(g.pending_queue.len(), 2);
    assert_eq!(g.pending_queue[0], cp(2, 0, 0));
    assert_eq!(g.pending_queue[1], cp(1, 0, 0));
    assert!(g.pending_set.contains(&cp(1, 0, 0)));
}

#[test]
fn unloads_drop_meshes_and_inflight() {
    let mut meshes: MeshStorage<u32> = MeshStorage::default();
    let mut inflight = set_of(&[cp(1, 0, 0), cp(2, 0, 0)]);
    meshes.insert(MeshKey::Chunk(cp(1, 0, 0)), 1);
    meshes.insert(MeshKey::Chunk(cp(3, 0, 0)), 3);
    let lod = LodNodeKey { x: 1, y: 0, z: 0, lod_level: 1 };
    meshes.insert(MeshKey::LodNode(lod), 7);
    apply_unload_requests(&vec![cp(1, 0, 0), cp(2, 0, 0)], &mut meshes, &mut inflight);
    assert!(meshes.get(&MeshKey::Chunk(cp(1, 0, 0))).is_none());
    assert_eq!(meshes.get(&MeshKey::Chunk(cp(3, 0, 0))), Some(&3));
    assert!(inflight.is_empty());
    assert_eq!(meshes.get(&MeshKey::LodNode(lod)), Some(&7));
    remove_lod_meshes(&vec![lod], &mut meshes);
    assert!(meshes.get(&MeshKey::LodNode(lod)).is_none());
}

#[test]
fn ready_positions_cover_support_layers() {
    let v = ready_check_positions(&cp(0, 1, 0), 28);
    assert_eq!(v.len(), 7 * 7 * 2);
    assert!(v.iter().all(|p| p.y >= 0 && p.y <= 1 && p.x.abs() <= 3 && p.z.abs() <= 3));
    let w = ready_check_positions(&cp(10, 5, -10), 28);
    assert_eq!(w.len(), 7 * 7 * 3);
    assert!(w.contains(&cp(7, 3, -13)));
    assert_eq!(chunk_center_column(&cp(2, 0, -1)), (80, -16));
}

#[test]
fn nearby_ready_ignores_air_above_surface() {
    let cands = vec![cp(0, 0, 0), cp(0, 5, 0)];
    let loaded = set_of(&[cp(0, 0, 0)]);
    assert!(nearby_chunks_ready(&cands, &vec![0, 3], &ChunkSet::new(), &loaded));
    assert!(!nearby_chunks_ready(&cands, &vec![0, 4], &ChunkSet::new(), &loaded));
    let meshed = set_of(&[cp(0, 5, 0)]);
    assert!(nearby_chunks_ready(&cands, &vec![0, 4], &meshed, &loaded));
}
