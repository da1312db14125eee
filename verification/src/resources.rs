//! Global resources: world bookkeeping, background mesh scheduling and
//! mesh storage.

use std::collections::{HashMap, VecDeque};
use vstd::prelude::*;

use crate::chunk::{ChunkPosition, ChunkSet, MeshKey, mesh_key_code, decode_mesh_key,
    lemma_mesh_key_roundtrip};
use crate::collision::CollisionWorld;

verus! {

broadcast use vstd::std_specs::hash::group_hash_axioms;

/// World data resource: voxel storage plus streaming flags and the set of
/// chunks whose meshes need rebuilding.
pub struct WorldResource<W> {
    /// Main chunk storage
    pub chunk_manager: W,
    /// Whether streaming mode is enabled
    pub use_streaming: bool,
    /// Whether initial chunks are ready (prevents fall-through)
    pub chunks_ready: bool,
    /// Dirty chunks that need mesh rebuild
    pub dirty_chunks: ChunkSet,
}

impl<W: CollisionWorld> WorldResource<W> {
    pub fn new(chunk_manager: W) -> (r: Self)
        ensures
            r.chunk_manager == chunk_manager,
            !r.use_streaming,
            r.chunks_ready,
            r.dirty_chunks@ == Set::<ChunkPosition>::empty(),
    {
        WorldResource {
            chunk_manager,
            use_streaming: false,
            chunks_ready: true,
            dirty_chunks: ChunkSet::new(),
        }
    }

    /// Mark a chunk as dirty for mesh rebuild
    pub fn mark_dirty(&mut self, pos: ChunkPosition)
        ensures
            final(self).dirty_chunks@ == old(self).dirty_chunks@.insert(pos),
            final(self).chunk_manager == old(self).chunk_manager,
            final(self).use_streaming == old(self).use_streaming,
            final(self).chunks_ready == old(self).chunks_ready,
    {
        self.dirty_chunks.insert(pos);
    }

    /// Take all dirty chunks (clearing the set)
    pub fn take_dirty(&mut self) -> (taken: ChunkSet)
        ensures
            taken@ == old(self).dirty_chunks@,
            final(self).dirty_chunks@ == Set::<ChunkPosition>::empty(),
            final(self).chunk_manager == old(self).chunk_manager,
            final(self).use_streaming == old(self).use_streaming,
            final(self).chunks_ready == old(self).chunks_ready,
    {
        let mut taken = ChunkSet::new();
        std::mem::swap(&mut taken, &mut self.dirty_chunks);
        taken
    }

    /// Check if a voxel position is solid (for collision)
    pub fn is_solid(&self, x: i32, y: i32, z: i32) -> (r: bool)
        ensures
            r == self.chunk_manager.solid(x, y, z),
    {
        self.chunk_manager.is_solid(x, y, z)
    }
}

/// Maximum number of chunks to rebuild per frame
pub const CHUNKS_PER_FRAME: usize = 8;

/// Maximum concurrent background mesh tasks
pub const MAX_INFLIGHT: usize = 128;

/// Background mesh generation bookkeeping: chunks being meshed and the
/// deduplicated queue of chunks waiting for a mesh.
#[derive(Debug)]
pub struct MeshGenerationResource {
    /// Chunks currently being meshed in background
    pub inflight: ChunkSet,
    /// Pending mesh queue
    pub pending_queue: VecDeque<ChunkPosition>,
    /// Pending set (for deduplication)
    pub pending_set: ChunkSet,
}

impl Default for MeshGenerationResource {
    fn default() -> (r: Self)
        ensures
            r.inflight@ == Set::<ChunkPosition>::empty(),
            r.pending_queue@ == Seq::<ChunkPosition>::empty(),
            r.pending_set@ == Set::<ChunkPosition>::empty(),
    {
        MeshGenerationResource {
            inflight: ChunkSet::new(),
            pending_queue: VecDeque::new(),
            pending_set: ChunkSet::new(),
        }
    }
}

/// Abstract state of the remesh queue: the waiting chunks in order, the
/// set used to deduplicate them, and the chunks being meshed in background.
pub struct QueueState {
    pub queue: Seq<ChunkPosition>,
    pub pending: Set<ChunkPosition>,
    pub inflight: Set<ChunkPosition>,
}

pub open spec fn queue_state(g: &MeshGenerationResource) -> QueueState {
    QueueState { queue: g.pending_queue@, pending: g.pending_set@, inflight: g.inflight@ }
}

/// Requesting a mesh: a chunk neither in flight nor pending joins the end
/// of the queue.
pub open spec fn spec_request_mesh(q: QueueState, p: ChunkPosition) -> QueueState {
    if !q.inflight.contains(p) && !q.pending.contains(p) {
        QueueState { queue: q.queue.push(p), pending: q.pending.insert(p), ..q }
    } else {
        q
    }
}

/// The queue holds each waiting chunk once, and the pending set is exactly
/// the set of waiting chunks.
pub open spec fn queue_wf(q: QueueState) -> bool {
    q.queue.no_duplicates() && q.queue.to_set() == q.pending
}

impl MeshGenerationResource {
    /// Add a chunk to the pending mesh queue
    pub fn request_mesh(&mut self, pos: ChunkPosition)
        ensures
            queue_state(final(self)) == spec_request_mesh(queue_state(old(self)), pos),
    {
        if !self.inflight.contains(&pos) && !self.pending_set.contains(&pos) {
            self.pending_queue.push_back(pos);
            self.pending_set.insert(pos);
        }
    }

    /// Mark a chunk as in-flight
    pub fn start_inflight(&mut self, pos: ChunkPosition)
        ensures
            final(self).inflight@ == old(self).inflight@.insert(pos),
            final(self).pending_set@ == old(self).pending_set@.remove(pos),
            final(self).pending_queue@ == old(self).pending_queue@,
    {
        self.inflight.insert(pos);
        self.pending_set.remove(&pos);
    }

    /// Mark a chunk as completed
    pub fn complete_inflight(&mut self, pos: ChunkPosition)
        ensures
            final(self).inflight@ == old(self).inflight@.remove(pos),
            final(self).pending_set@ == old(self).pending_set@,
            final(self).pending_queue@ == old(self).pending_queue@,
    {
        self.inflight.remove(&pos);
    }

    /// Check if we can dispatch more background tasks
    pub fn can_dispatch(&self) -> (b: bool)
        ensures
            b == (self.inflight@.len() < MAX_INFLIGHT),
    {
        self.inflight.len() < MAX_INFLIGHT
    }
}

/// Mesh storage: maps each mesh key (chunk or LOD node) to its GPU mesh.
/// The map is keyed by the exact integer code of the mesh key.
pub struct MeshStorage<M> {
    pub meshes: HashMap<u128, M>,
}

impl<M> View for MeshStorage<M> {
    type V = Map<MeshKey, M>;

    open spec fn view(&self) -> Map<MeshKey, M> {
        Map::new(
            |k: MeshKey| self.meshes@.contains_key(mesh_key_code(k) as u128),
            |k: MeshKey| self.meshes@[mesh_key_code(k) as u128],
        )
    }
}

/// Two mesh keys with the same code are the same key.
pub proof fn lemma_mesh_key_code_injective(a: MeshKey, b: MeshKey)
    ensures
        (mesh_key_code(a) as u128 == mesh_key_code(b) as u128) == (a == b),
{
    lemma_mesh_key_roundtrip(a);
    lemma_mesh_key_roundtrip(b);
}

impl<M> Default for MeshStorage<M> {
    fn default() -> (r: Self)
        ensures
            r@ == Map::<MeshKey, M>::empty(),
    {
        let r = MeshStorage { meshes: HashMap::new() };
        assert(r@ =~= Map::<MeshKey, M>::empty());
        r
    }
}

impl<M> MeshStorage<M> {
    pub fn insert(&mut self, key: MeshKey, mesh: M)
        ensures
            final(self)@ == old(self)@.insert(key, mesh),
    {
        let code = key.code();
        self.meshes.insert(code, mesh);
        proof {
            assert forall|k: MeshKey| #[trigger] self@.contains_key(k) == old(self)@.insert(key, mesh).contains_key(k) by {
                lemma_mesh_key_code_injective(k, key);
            }
            assert forall|k: MeshKey| #[trigger] self@.contains_key(k) implies self@[k] == old(self)@.insert(key, mesh)[k] by {
                lemma_mesh_key_code_injective(k, key);
            }
            assert(self@ =~= old(self)@.insert(key, mesh));
        }
    }

    pub fn get(&self, key: &MeshKey) -> (r: Option<&M>)
        ensures
            match r {
                Some(m) => self@.contains_key(*key) && *m == self@[*key],
                None => !self@.contains_key(*key),
            },
    {
        let code = key.code();
        self.meshes.get(&code)
    }

    pub fn remove(&mut self, key: &MeshKey) -> (r: Option<M>)
        ensures
            final(self)@ == old(self)@.remove(*key),
            match r {
                Some(m) => old(self)@.contains_key(*key) && m == old(self)@[*key],
                None => !old(self)@.contains_key(*key),
            },
    {
        let code = key.code();
        let r = self.meshes.remove(&code);
        proof {
            assert forall|k: MeshKey| #[trigger] self@.contains_key(k) == old(self)@.remove(*key).contains_key(k) by {
                lemma_mesh_key_code_injective(k, *key);
            }
            assert forall|k: MeshKey| #[trigger] self@.contains_key(k) implies self@[k] == old(self)@.remove(*key)[k] by {
                lemma_mesh_key_code_injective(k, *key);
            }
            assert(self@ =~= old(self)@.remove(*key));
        }
        r
    }
}


/// Game state machine for high-level game flow
#[derive(Debug, Clone, Copy, PartialEq, Eq, Structural)]
pub enum GameState {
    Menu,
    Loading,
    Playing,
    Paused,
}

impl Default for GameState {
    fn default() -> (r: Self)
        ensures
            r == GameState::Menu,
    {
        GameState::Menu
    }
}

/// Screen state for post-processing
#[derive(Debug, Clone, Copy, PartialEq, Eq, Structural)]
pub enum ScreenState {
    MainMenu,
    InGame,
    Paused,
}

impl Default for ScreenState {
    fn default() -> (r: Self)
        ensures
            r == ScreenState::MainMenu,
    {
        ScreenState::MainMenu
    }
}

/// Vsync mode setting
#[derive(Debug, Clone, Copy, PartialEq, Eq, Structural)]
pub enum VsyncMode {
    Enabled,
    Disabled,
    Adaptive,
}

impl Default for VsyncMode {
    fn default() -> (r: Self)
        ensures
            r == VsyncMode::Enabled,
    {
        VsyncMode::Enabled
    }
}

/// LOD mesh tracking resource
#[derive(Debug)]
pub struct LodMeshResource {
    /// LOD mesh tasks to process
    pub tasks: Vec<MeshKey>,
}

impl Default for LodMeshResource {
    fn default() -> (r: Self)
        ensures
            r.tasks@.len() == 0,
    {
        LodMeshResource { tasks: Vec::new() }
    }
}

#[derive(Debug, Clone, Copy, PartialEq, Eq, Structural)]
pub enum SaveLoadState {
    Idle,
    Saving,
    Loading,
    Generating,
}

impl Default for SaveLoadState {
    fn default() -> (r: Self)
        ensures
            r == SaveLoadState::Idle,
    {
        SaveLoadState::Idle
    }
}

/// Save/Load state resource
#[derive(Debug)]
pub struct SaveLoadResource {
    /// Current save/load operation
    pub operation: SaveLoadState,
}

impl Default for SaveLoadResource {
    fn default() -> (r: Self)
        ensures
            r.operation == SaveLoadState::Idle,
    {
        SaveLoadResource { operation: SaveLoadState::Idle }
    }
}

/// World generation progress resource, with the queue of meshes to build
/// while the world loads.
#[derive(Debug)]
pub struct WorldGenResource {
    /// Progress message
    pub message: String,
    /// Items completed
    pub completed: usize,
    /// Total items
    pub total: usize,
    /// Whether generation is complete
    pub is_complete: bool,
    /// Meshes still to build for the loading world
    pub mesh_tasks: Vec<MeshKey>,
    /// Number of meshes the loading world needed in all
    pub mesh_tasks_total: usize,
}

impl Default for WorldGenResource {
    fn default() -> (r: Self)
        ensures
            r.message@.len() == 0,
            r.completed == 0,
            r.total == 0,
            !r.is_complete,
            r.mesh_tasks@.len() == 0,
            r.mesh_tasks_total == 0,
    {
        WorldGenResource {
            message: String::new(),
            completed: 0,
            total: 0,
            is_complete: false,
            mesh_tasks: Vec::new(),
            mesh_tasks_total: 0,
        }
    }
}


/// After inserting a mesh under a key, looking the key up finds that mesh.
pub proof fn law_mesh_get_after_insert<M>(s: Map<MeshKey, M>, k: MeshKey, m: M)
    ensures
        s.insert(k, m).contains_key(k),
        s.insert(k, m)[k] == m,
{
}

/// Removing a freshly inserted key restores the storage, and removal
/// leaves the key absent.
pub proof fn law_mesh_remove_after_insert<M>(s: Map<MeshKey, M>, k: MeshKey, m: M)
    ensures
        !s.contains_key(k) ==> s.insert(k, m).remove(k) == s,
        !s.insert(k, m).remove(k).contains_key(k),
{
    if !s.contains_key(k) {
        assert(s.insert(k, m).remove(k) =~= s);
    }
}

/// Starting and then completing a chunk that was not in flight leaves the
/// in-flight set as it was.
pub proof fn law_inflight_round_trip(inflight: Set<ChunkPosition>, p: ChunkPosition)
    ensures
        !inflight.contains(p) ==> inflight.insert(p).remove(p) == inflight,
{
    if !inflight.contains(p) {
        assert(inflight.insert(p).remove(p) =~= inflight);
    }
}

/// Marking a chunk dirty twice is the same as marking it once, and taking
/// the dirty set yields every marked chunk.
pub proof fn law_mark_dirty_idempotent(dirty: Set<ChunkPosition>, p: ChunkPosition)
    ensures
        dirty.insert(p).insert(p) == dirty.insert(p),
        dirty.insert(p).contains(p),
{
    assert(dirty.insert(p).insert(p) =~= dirty.insert(p));
}

} // verus!
