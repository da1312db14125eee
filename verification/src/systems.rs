//! Per-frame systems. Each system is a unit value; the decisions a system
//! makes from the world's state are its methods here, while the parts that
//! run on the GPU, on floats or on the scheduler stay with the caller.

use vstd::prelude::*;

use crate::chunk::{ChunkPosition, MeshKey};
use crate::collision::CollisionWorld;
use crate::components::WalkingState;
use crate::resources::{WorldGenResource, WorldResource, CHUNKS_PER_FRAME};

verus! {

/// Largest number of queued meshes built in one frame while a world loads.
pub const LOADING_MESH_BATCH: usize = 256;

pub struct CameraUpdateSystem;

pub struct FreeCameraMovementSystem;

pub struct CharacterAnimationSystem;

pub struct CharacterBvhSystem;

pub struct InputSystem;

pub struct LightingSystem;

pub struct MeshRebuildSystem;

pub struct PlayerPhysicsSystem;

pub struct StreamingSystem;

pub struct TimeSystem;

pub struct UISystem;

pub struct VoxelEditSystem;

/// Create the camera update system
pub fn camera_update_system() -> (s: CameraUpdateSystem) {
    CameraUpdateSystem
}

/// Create the free camera movement system
pub fn free_camera_system() -> (s: FreeCameraMovementSystem) {
    FreeCameraMovementSystem
}

/// Create the character animation system
pub fn character_animation_system() -> (s: CharacterAnimationSystem) {
    CharacterAnimationSystem
}

/// Create the character BVH system
pub fn character_bvh_system() -> (s: CharacterBvhSystem) {
    CharacterBvhSystem
}

/// Create the input system
pub fn input_system() -> (s: InputSystem) {
    InputSystem
}

/// Create the lighting system
pub fn lighting_system() -> (s: LightingSystem) {
    LightingSystem
}

/// Create the mesh rebuild system
pub fn mesh_rebuild_system() -> (s: MeshRebuildSystem) {
    MeshRebuildSystem
}

/// Create the player physics system
pub fn player_physics_system() -> (s: PlayerPhysicsSystem) {
    PlayerPhysicsSystem
}

/// Create the streaming system
pub fn streaming_system() -> (s: StreamingSystem) {
    StreamingSystem
}

/// Create the time system
pub fn time_system() -> (s: TimeSystem) {
    TimeSystem
}

/// Create the UI system
pub fn ui_system() -> (s: UISystem) {
    UISystem
}

/// Create the voxel edit system
pub fn voxel_edit_system() -> (s: VoxelEditSystem) {
    VoxelEditSystem
}

/// Mesh data ready for GPU upload; an empty vertex list removes the mesh.
#[derive(Debug)]
pub struct MeshBuildResult<V> {
    pub key: MeshKey,
    pub vertices: Vec<V>,
}

/// Resource holding pending mesh builds that need GPU upload
#[derive(Debug)]
pub struct PendingMeshBuilds<V> {
    pub builds: Vec<MeshBuildResult<V>>,
}

impl<V> Default for PendingMeshBuilds<V> {
    fn default() -> (r: Self)
        ensures
            r.builds@.len() == 0,
    {
        PendingMeshBuilds { builds: Vec::new() }
    }
}

pub open spec fn min_usize(a: int, b: int) -> int {
    if a <= b { a } else { b }
}

pub open spec fn chunk_mesh_keys(s: Seq<ChunkPosition>) -> Seq<MeshKey> {
    s.map_values(|p: ChunkPosition| MeshKey::Chunk(p))
}

/// The meshes a frame of the mesh rebuild system builds.
pub struct MeshWork {
    pub keys: Vec<MeshKey>,
    /// The meshes belong to a world that is loading.
    pub loading: bool,
}

impl MeshRebuildSystem {
    /// Pick this frame's meshes. While a world loads, up to
    /// `LOADING_MESH_BATCH` queued meshes are taken in order and the
    /// progress count is updated; otherwise the dirty chunks are taken from
    /// the world, up to `CHUNKS_PER_FRAME` of them are rebuilt and the rest
    /// are marked dirty again.
    pub fn plan<W: CollisionWorld>(&self, world: &mut WorldResource<W>, gen: &mut WorldGenResource) -> (work: MeshWork)
        requires
            old(gen).mesh_tasks@.len() <= old(gen).mesh_tasks_total,
        ensures
            final(world).chunk_manager == old(world).chunk_manager,
            final(world).use_streaming == old(world).use_streaming,
            final(world).chunks_ready == old(world).chunks_ready,
            final(gen).mesh_tasks_total == old(gen).mesh_tasks_total,
            final(gen).total == old(gen).total,
            final(gen).is_complete == old(gen).is_complete,
            final(gen).message@ == old(gen).message@,
            work.loading == (old(gen).mesh_tasks@.len() > 0),
            work.loading ==> ({
                let n = min_usize(old(gen).mesh_tasks@.len() as int, LOADING_MESH_BATCH as int);
                &&& work.keys@ == old(gen).mesh_tasks@.take(n)
                &&& final(gen).mesh_tasks@ == old(gen).mesh_tasks@.skip(n)
                &&& final(gen).completed == old(gen).mesh_tasks_total - final(gen).mesh_tasks@.len()
                &&& final(world).dirty_chunks@ == old(world).dirty_chunks@
            }),
            !work.loading ==> ({
                &&& final(gen).mesh_tasks@ == old(gen).mesh_tasks@
                &&& final(gen).completed == old(gen).completed
                &&& exists|s: Seq<ChunkPosition>|
                    #![trigger s.to_set()]
                    {
                        let n = min_usize(s.len() as int, CHUNKS_PER_FRAME as int);
                        &&& s.no_duplicates()
                        &&& s.to_set() == old(world).dirty_chunks@
                        &&& work.keys@ == chunk_mesh_keys(s.take(n))
                        &&& final(world).dirty_chunks@ == s.skip(n).to_set()
                    }
            }),
    {
        if gen.mesh_tasks.len() > 0 {
            let n: usize = if gen.mesh_tasks.len() < LOADING_MESH_BATCH {
                gen.mesh_tasks.len()
            } else {
                LOADING_MESH_BATCH
            };
            let rest = gen.mesh_tasks.split_off(n);
            let mut batch = rest;
            std::mem::swap(&mut batch, &mut gen.mesh_tasks);
            gen.completed = gen.mesh_tasks_total - gen.mesh_tasks.len();
            return MeshWork { keys: batch, loading: true };
        }
        let dirty = world.take_dirty();
        let listed = dirty.to_vec();
        let n: usize = if listed.len() < CHUNKS_PER_FRAME { listed.len() } else { CHUNKS_PER_FRAME };
        let mut keys: Vec<MeshKey> = Vec::new();
        let mut i: usize = 0;
        while i < n
            invariant
                n <= listed@.len(),
                i <= n,
                keys@ == chunk_mesh_keys(listed@.take(i as int)),
            decreases n - i,
        {
            keys.push(MeshKey::Chunk(listed[i]));
            assert(keys@ =~= chunk_mesh_keys(listed@.take(i + 1)));
            i = i + 1;
        }
        let mut j: usize = n;
        assert(listed@.skip(n as int).subrange(0, 0).to_set() =~= Set::<ChunkPosition>::empty());
        while j < listed.len()
            invariant
                n <= j <= listed@.len(),
                world.dirty_chunks@ == listed@.subrange(n as int, j as int).to_set(),
                world.chunk_manager == old(world).chunk_manager,
                world.use_streaming == old(world).use_streaming,
                world.chunks_ready == old(world).chunks_ready,
            decreases listed@.len() - j,
        {
            let p = listed[j];
            world.mark_dirty(p);
            proof {
                let pre = listed@.subrange(n as int, j as int);
                assert(listed@.subrange(n as int, j + 1) =~= pre.push(p));
                pre.lemma_push_to_set_commute(p);
            }
            j = j + 1;
        }
        assert(listed@.subrange(n as int, listed@.len() as int) =~= listed@.skip(n as int));
        MeshWork { keys, loading: false }
    }
}

impl StreamingSystem {
    /// In streaming mode, release the player once the nearby chunks are in.
    pub fn run<W: CollisionWorld>(&self, world: &mut WorldResource<W>)
        ensures
            final(world).chunks_ready == (old(world).chunks_ready || old(world).use_streaming),
            final(world).use_streaming == old(world).use_streaming,
            final(world).chunk_manager == old(world).chunk_manager,
            final(world).dirty_chunks@ == old(world).dirty_chunks@,
    {
        if !world.use_streaming {
            return;
        }
        if !world.chunks_ready {
            world.chunks_ready = true;
        }
    }
}

impl CharacterBvhSystem {
    /// The character BVH must be rebuilt when any character is marked dirty
    /// or any character walks (its first-person view animates).
    pub fn needs_rebuild(&self, dirty_markers: usize, walking: &Vec<WalkingState>) -> (r: bool)
        ensures
            r == (dirty_markers > 0 || exists|i: int| 0 <= i < walking@.len() && (#[trigger] walking@[i]).is_walking),
    {
        if dirty_markers > 0 {
            return true;
        }
        let mut i: usize = 0;
        while i < walking.len()
            invariant
                i <= walking@.len(),
                forall|j: int| 0 <= j < i ==> !(#[trigger] walking@[j]).is_walking,
            decreases walking@.len() - i,
        {
            if walking[i].is_walking {
                return true;
            }
            i = i + 1;
        }
        false
    }
}


/// Mesh builds split by what the upload step does with them: keys whose
/// build came back empty lose their mesh, the others are uploaded.
pub struct SplitBuilds<V> {
    pub removals: Vec<MeshKey>,
    pub uploads: Vec<MeshBuildResult<V>>,
}

pub open spec fn build_keys<V>(s: Seq<MeshBuildResult<V>>) -> Seq<MeshKey> {
    s.map_values(|b: MeshBuildResult<V>| b.key)
}

/// Split pending builds, keeping their order within each part.
pub fn split_mesh_builds<V>(builds: Vec<MeshBuildResult<V>>) -> (r: SplitBuilds<V>)
    ensures
        r.removals@ == build_keys(builds@.filter(|b: MeshBuildResult<V>| b.vertices@.len() == 0)),
        r.uploads@ == builds@.filter(|b: MeshBuildResult<V>| b.vertices@.len() > 0),
{
    let ghost all = builds@;
    let ghost empty = |b: MeshBuildResult<V>| b.vertices@.len() == 0;
    let ghost full = |b: MeshBuildResult<V>| b.vertices@.len() > 0;
    let mut builds = builds;
    let mut removals: Vec<MeshKey> = Vec::new();
    let mut uploads: Vec<MeshBuildResult<V>> = Vec::new();
    let mut taken: usize = 0;
    let total = builds.len();
    assert(all.take(0) =~= Seq::<MeshBuildResult<V>>::empty());
    assert(builds@ =~= all.skip(0));
    while builds.len() > 0
        invariant
            builds@ == all.skip(taken as int),
            total == all.len(),
            taken <= all.len(),
            removals@ == build_keys(all.take(taken as int).filter(empty)),
            uploads@ == all.take(taken as int).filter(full),
            empty == (|b: MeshBuildResult<V>| b.vertices@.len() == 0),
            full == (|b: MeshBuildResult<V>| b.vertices@.len() > 0),
        decreases all.len() - taken,
    {
        let ghost before = builds@;
        let b = builds.remove(0);
        proof {
            assert(before[0] == b);
            assert(all.skip(taken as int).drop_first() =~= all.skip(taken + 1));
            assert(all.take(taken + 1) =~= all.take(taken as int).push(b));
            all.take(taken as int).lemma_filter_push(b, empty);
            all.take(taken as int).lemma_filter_push(b, full);
        }
        if b.vertices.len() == 0 {
            let ghost r0 = removals@;
            removals.push(b.key);
            assert(build_keys(all.take(taken + 1).filter(empty)) =~= r0.push(b.key));
        } else {
            uploads.push(b);
        }
        taken = taken + 1;
    }
    assert(all.take(taken as int) =~= all);
    SplitBuilds { removals, uploads }
}

} // verus!
