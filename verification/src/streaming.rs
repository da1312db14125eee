//! Streaming and remeshing decisions: which chunks get meshed this frame,
//! in which order, and how many background tasks may run.

use std::collections::VecDeque;
use vstd::prelude::*;
use vstd::multiset::Multiset;

use crate::chunk::{ChunkPosition, ChunkSet, LodNodeKey, MeshKey};
use crate::resources::{MeshGenerationResource, MeshStorage, QueueState, queue_state, spec_request_mesh,
    queue_wf, CHUNKS_PER_FRAME, MAX_INFLIGHT};
use crate::ui_state::PerformancePreset;

verus! {

broadcast use vstd::seq_lib::group_to_multiset_ensures;

/// Squared Euclidean distance between two chunk positions, exactly.
pub open spec fn chunk_dist2(p: ChunkPosition, c: ChunkPosition) -> int {
    (p.x - c.x) * (p.x - c.x) + (p.y - c.y) * (p.y - c.y) + (p.z - c.z) * (p.z - c.z)
}

/// Squared distance of `p` from `c`, computed without overflow.
pub fn chunk_distance_sq(p: &ChunkPosition, c: &ChunkPosition) -> (d: u128)
    ensures
        d == chunk_dist2(*p, *c),
{
    let dx: i128 = p.x as i128 - c.x as i128;
    let dy: i128 = p.y as i128 - c.y as i128;
    let dz: i128 = p.z as i128 - c.z as i128;
    assert(dx * dx <= 0x1_0000_0000_0000_0000) by (nonlinear_arith)
        requires -0x1_0000_0000 <= dx <= 0x1_0000_0000;
    assert(dy * dy <= 0x1_0000_0000_0000_0000) by (nonlinear_arith)
        requires -0x1_0000_0000 <= dy <= 0x1_0000_0000;
    assert(dz * dz <= 0x1_0000_0000_0000_0000) by (nonlinear_arith)
        requires -0x1_0000_0000 <= dz <= 0x1_0000_0000;
    assert(0 <= dx * dx) by (nonlinear_arith);
    assert(0 <= dy * dy) by (nonlinear_arith);
    assert(0 <= dz * dz) by (nonlinear_arith);
    let s: i128 = dx * dx + dy * dy + dz * dz;
    s as u128
}

/// Insert `p` into `s` right after the last element that is no farther
/// from `c` than `p` (so equally distant elements keep their order).
pub open spec fn insert_by_dist(s: Seq<ChunkPosition>, p: ChunkPosition, c: ChunkPosition) -> Seq<ChunkPosition>
    decreases s.len(),
{
    if s.len() == 0 {
        seq![p]
    } else if chunk_dist2(s.last(), c) <= chunk_dist2(p, c) {
        s.push(p)
    } else {
        insert_by_dist(s.drop_last(), p, c).push(s.last())
    }
}

/// Stable sort of `s` by squared distance from `c`, closest first.
pub open spec fn sort_by_dist(s: Seq<ChunkPosition>, c: ChunkPosition) -> Seq<ChunkPosition>
    decreases s.len(),
{
    if s.len() == 0 {
        s
    } else {
        insert_by_dist(sort_by_dist(s.drop_last(), c), s.last(), c)
    }
}

pub open spec fn sorted_by_dist(s: Seq<ChunkPosition>, c: ChunkPosition) -> bool {
    forall|i: int, j: int| 0 <= i < j < s.len() ==> chunk_dist2(#[trigger] s[i], c) <= chunk_dist2(#[trigger] s[j], c)
}

proof fn lemma_insert_at(s: Seq<ChunkPosition>, p: ChunkPosition, c: ChunkPosition, k: int)
    requires
        0 <= k <= s.len(),
        forall|j: int| k <= j < s.len() ==> chunk_dist2(#[trigger] s[j], c) > chunk_dist2(p, c),
        k > 0 ==> chunk_dist2(s[k - 1], c) <= chunk_dist2(p, c),
    ensures
        insert_by_dist(s, p, c) == s.insert(k, p),
    decreases s.len(),
{
    if s.len() == 0 {
        assert(s.insert(k, p) =~= seq![p]);
    } else if k == s.len() {
        assert(s.insert(k, p) =~= s.push(p));
    } else {
        lemma_insert_at(s.drop_last(), p, c, k);
        assert(s.drop_last().insert(k, p).push(s.last()) =~= s.insert(k, p));
    }
}

proof fn lemma_insert_sorted(s: Seq<ChunkPosition>, p: ChunkPosition, c: ChunkPosition)
    requires
        sorted_by_dist(s, c),
    ensures
        sorted_by_dist(insert_by_dist(s, p, c), c),
        insert_by_dist(s, p, c).to_multiset() == s.to_multiset().insert(p),
        insert_by_dist(s, p, c).len() == s.len() + 1,
    decreases s.len(),
{
    if s.len() == 0 {
        assert(seq![p] =~= Seq::<ChunkPosition>::empty().push(p));
    } else if chunk_dist2(s.last(), c) <= chunk_dist2(p, c) {
    } else {
        let t = s.drop_last();
        lemma_insert_sorted(t, p, c);
        assert(s =~= t.push(s.last()));
        let r = insert_by_dist(t, p, c);
        assert forall|i: int| 0 <= i < r.len() implies chunk_dist2(#[trigger] r[i], c) <= chunk_dist2(s.last(), c) by {
            assert(r.to_multiset().count(r[i]) > 0);
            assert(t.to_multiset().insert(p).count(r[i]) > 0);
            if r[i] != p {
                assert(t.to_multiset().count(r[i]) > 0);
                assert(t.contains(r[i]));
                let j = choose|j: int| 0 <= j < t.len() && t[j] == r[i];
                assert(s[j] == t[j]);
            }
        }
    }
}

/// Sorting by distance keeps every element and orders them by distance.
pub proof fn lemma_sort_by_dist(s: Seq<ChunkPosition>, c: ChunkPosition)
    ensures
        sorted_by_dist(sort_by_dist(s, c), c),
        sort_by_dist(s, c).to_multiset() == s.to_multiset(),
        sort_by_dist(s, c).len() == s.len(),
    decreases s.len(),
{
    if s.len() > 0 {
        lemma_sort_by_dist(s.drop_last(), c);
        lemma_insert_sorted(sort_by_dist(s.drop_last(), c), s.last(), c);
        assert(s =~= s.drop_last().push(s.last()));
    } else {
        assert(s.to_multiset() =~= Multiset::<ChunkPosition>::empty());
    }
}

/// Stable sort of chunk positions by squared distance from `center`,
/// closest first.
pub fn sort_by_distance(v: &Vec<ChunkPosition>, center: &ChunkPosition) -> (r: Vec<ChunkPosition>)
    ensures
        r@ == sort_by_dist(v@, *center),
{
    let mut r: Vec<ChunkPosition> = Vec::new();
    let mut i: usize = 0;
    while i < v.len()
        invariant
            i <= v@.len(),
            r@ == sort_by_dist(v@.subrange(0, i as int), *center),
            sorted_by_dist(r@, *center),
        decreases v@.len() - i,
    {
        let p = v[i];
        let dp = chunk_distance_sq(&p, center);
        let mut k: usize = r.len();
        while k > 0 && chunk_distance_sq(&r[k - 1], center) > dp
            invariant
                k <= r@.len(),
                dp == chunk_dist2(p, *center),
                forall|j: int| k <= j < r@.len() ==> chunk_dist2(#[trigger] r@[j], *center) > chunk_dist2(p, *center),
            decreases k,
        {
            k = k - 1;
        }
        proof {
            let pre = v@.subrange(0, i as int);
            let post = v@.subrange(0, i + 1);
            assert(post.drop_last() =~= pre);
            assert(post.last() == p);
            lemma_insert_at(r@, p, *center, k as int);
            lemma_insert_sorted(r@, p, *center);
        }
        r.insert(k, p);
        i = i + 1;
    }
    assert(v@.subrange(0, v@.len() as int) =~= v@);
    r
}


/// Appending the chunks of `dirty` that are not yet pending, in order.
pub open spec fn enqueue_all(q: QueueState, dirty: Seq<ChunkPosition>) -> QueueState
    decreases dirty.len(),
{
    if dirty.len() == 0 {
        q
    } else {
        let q1 = enqueue_all(q, dirty.drop_last());
        let p = dirty.last();
        if q1.pending.contains(p) {
            q1
        } else {
            QueueState { queue: q1.queue.push(p), pending: q1.pending.insert(p), ..q1 }
        }
    }
}

/// One frame of background dispatch from the front of the queue: at most
/// `n` chunks are taken; a chunk already in flight is dropped from the
/// queue; when the in-flight cap is reached the chunk goes back to the end
/// and the frame stops; a chunk without data has its mesh dropped;
/// otherwise it is dispatched. Yields the new state, the dispatched chunks
/// and the dropped ones.
pub open spec fn stream_batch(q: QueueState, present: Set<ChunkPosition>, n: nat)
    -> (QueueState, Seq<ChunkPosition>, Seq<ChunkPosition>)
    decreases n,
{
    if n == 0 || q.queue.len() == 0 {
        (q, Seq::empty(), Seq::empty())
    } else {
        let p = q.queue[0];
        let q1 = QueueState { queue: q.queue.drop_first(), pending: q.pending.remove(p), ..q };
        if q1.inflight.contains(p) {
            stream_batch(q1, present, (n - 1) as nat)
        } else if q1.inflight.len() >= MAX_INFLIGHT {
            (QueueState { queue: q1.queue.push(p), pending: q1.pending.insert(p), ..q1 }, Seq::empty(), Seq::empty())
        } else if !present.contains(p) {
            let (r, d, x) = stream_batch(q1, present, (n - 1) as nat);
            (r, d, seq![p] + x)
        } else {
            let q2 = QueueState { inflight: q1.inflight.insert(p), ..q1 };
            let (r, d, x) = stream_batch(q2, present, (n - 1) as nat);
            (r, seq![p] + d, x)
        }
    }
}

/// Chunks handed to background meshing this frame, and chunks whose mesh
/// is dropped because their data is gone.
pub struct StreamingBatch {
    pub dispatched: Vec<ChunkPosition>,
    pub dropped: Vec<ChunkPosition>,
}

pub open spec fn min_nat(a: nat, b: nat) -> nat {
    if a <= b { a } else { b }
}

impl MeshGenerationResource {
    /// Queue the dirty chunks that are not pending yet, in the given order.
    pub fn enqueue_dirty(&mut self, dirty: &Vec<ChunkPosition>)
        ensures
            queue_state(final(self)) == enqueue_all(queue_state(old(self)), dirty@),
    {
        let mut i: usize = 0;
        while i < dirty.len()
            invariant
                i <= dirty@.len(),
                queue_state(self) == enqueue_all(queue_state(old(self)), dirty@.subrange(0, i as int)),
            decreases dirty@.len() - i,
        {
            let p = dirty[i];
            proof {
                assert(dirty@.subrange(0, i + 1).drop_last() =~= dirty@.subrange(0, i as int));
            }
            if !self.pending_set.contains(&p) {
                self.pending_set.insert(p);
                self.pending_queue.push_back(p);
            }
            i = i + 1;
        }
        assert(dirty@.subrange(0, dirty@.len() as int) =~= dirty@);
    }

    /// Reorder the waiting chunks by distance from `center`, closest first.
    pub fn sort_pending(&mut self, center: &ChunkPosition)
        ensures
            queue_state(final(self)) == (QueueState {
                queue: sort_by_dist(old(self).pending_queue@, *center),
                ..queue_state(old(self))
            }),
    {
        let mut v: Vec<ChunkPosition> = Vec::new();
        while self.pending_queue.len() > 0
            invariant
                v@ + self.pending_queue@ == old(self).pending_queue@,
                self.pending_set@ == old(self).pending_set@,
                self.inflight@ == old(self).inflight@,
            decreases self.pending_queue@.len(),
        {
            let ghost before = self.pending_queue@;
            let p = self.pending_queue.pop_front().unwrap();
            assert(before == seq![p] + self.pending_queue@);
            v.push(p);
            assert(v@ + self.pending_queue@ =~= old(self).pending_queue@);
        }
        assert(v@ =~= old(self).pending_queue@);
        let sorted = sort_by_distance(&v, center);
        let mut q: VecDeque<ChunkPosition> = VecDeque::new();
        let mut i: usize = 0;
        while i < sorted.len()
            invariant
                i <= sorted@.len(),
                q@ == sorted@.subrange(0, i as int),
            decreases sorted@.len() - i,
        {
            q.push_back(sorted[i]);
            assert(q@ =~= sorted@.subrange(0, i + 1));
            i = i + 1;
        }
        assert(sorted@.subrange(0, sorted@.len() as int) =~= sorted@);
        self.pending_queue = q;
    }

    /// Take up to `CHUNKS_PER_FRAME` chunks from the front of the queue for
    /// meshing on the calling thread.
    pub fn take_sync_batch(&mut self) -> (batch: Vec<ChunkPosition>)
        ensures
            batch@ == old(self).pending_queue@.take(min_nat(old(self).pending_queue@.len(), CHUNKS_PER_FRAME as nat) as int),
            final(self).pending_queue@ == old(self).pending_queue@.skip(batch@.len() as int),
            final(self).pending_set@ == old(self).pending_set@.difference(batch@.to_set()),
            final(self).inflight@ == old(self).inflight@,
    {
        let n: usize = if self.pending_queue.len() < CHUNKS_PER_FRAME {
            self.pending_queue.len()
        } else {
            CHUNKS_PER_FRAME
        };
        let mut batch: Vec<ChunkPosition> = Vec::new();
        let mut i: usize = 0;
        while i < n
            invariant
                n <= old(self).pending_queue@.len(),
                n == min_nat(old(self).pending_queue@.len(), CHUNKS_PER_FRAME as nat),
                i <= n,
                batch@ == old(self).pending_queue@.take(i as int),
                self.pending_queue@ == old(self).pending_queue@.skip(i as int),
                self.pending_set@ == old(self).pending_set@.difference(batch@.to_set()),
                self.inflight@ == old(self).inflight@,
            decreases n - i,
        {
            let ghost before = self.pending_queue@;
            let p = self.pending_queue.pop_front().unwrap();
            assert(before[0] == p);
            self.pending_set.remove(&p);
            let ghost old_batch = batch@;
            batch.push(p);
            assert(batch@ =~= old(self).pending_queue@.take(i + 1));
            assert(self.pending_queue@ =~= old(self).pending_queue@.skip(i + 1));
            assert(batch@.to_set() =~= old_batch.to_set().insert(p)) by {
                assert(batch@ == old_batch.push(p));
                old_batch.lemma_push_to_set_commute(p);
            }
            assert(self.pending_set@ =~= old(self).pending_set@.difference(batch@.to_set()));
            i = i + 1;
        }
        batch
    }

    /// One frame of background dispatch from the front of the queue (see
    /// `stream_batch`); `present` holds the queued chunks whose voxel data
    /// is loaded.
    pub fn dispatch_streaming_batch(&mut self, present: &ChunkSet) -> (out: StreamingBatch)
        ensures
            (queue_state(final(self)), out.dispatched@, out.dropped@)
                == stream_batch(queue_state(old(self)), present@, CHUNKS_PER_FRAME as nat),
    {
        let mut dispatched: Vec<ChunkPosition> = Vec::new();
        let mut dropped: Vec<ChunkPosition> = Vec::new();
        let mut left: usize = CHUNKS_PER_FRAME;
        let ghost total = stream_batch(queue_state(old(self)), present@, CHUNKS_PER_FRAME as nat);
        while left > 0 && self.pending_queue.len() > 0
            invariant
                left <= CHUNKS_PER_FRAME,
                total == stream_batch(queue_state(old(self)), present@, CHUNKS_PER_FRAME as nat),
                ({
                    let (r, d, x) = stream_batch(queue_state(self), present@, left as nat);
                    total == (r, dispatched@ + d, dropped@ + x)
                }),
            decreases left,
        {
            let ghost q = queue_state(self);
            let p = self.pending_queue.pop_front().unwrap();
            assert(q.queue[0] == p);
            self.pending_set.remove(&p);
            left = left - 1;
            if self.inflight.contains(&p) {
                continue;
            }
            if self.inflight.len() >= MAX_INFLIGHT {
                self.pending_queue.push_back(p);
                self.pending_set.insert(p);
                proof {
                    let r = stream_batch(q, present@, (left + 1) as nat);
                    assert(r.0 == queue_state(self));
                    assert(dispatched@ + r.1 =~= dispatched@);
                    assert(dropped@ + r.2 =~= dropped@);
                }
                return StreamingBatch { dispatched, dropped };
            }
            if !present.contains(&p) {
                let ghost old_dropped = dropped@;
                dropped.push(p);
                proof {
                    let (r, d, x) = stream_batch(queue_state(self), present@, left as nat);
                    assert(old_dropped + (seq![p] + x) =~= dropped@ + x);
                }
                continue;
            }
            self.inflight.insert(p);
            let ghost old_dispatched = dispatched@;
            dispatched.push(p);
            proof {
                let (r, d, x) = stream_batch(queue_state(self), present@, left as nat);
                assert(old_dispatched + (seq![p] + d) =~= dispatched@ + d);
            }
        }
        proof {
            let (r, d, x) = stream_batch(queue_state(self), present@, left as nat);
            assert(d =~= Seq::<ChunkPosition>::empty());
            assert(x =~= Seq::<ChunkPosition>::empty());
            assert(dispatched@ + d =~= dispatched@);
            assert(dropped@ + x =~= dropped@);
        }
        StreamingBatch { dispatched, dropped }
    }
}


/// What the remesh step hands on: nothing, chunks for background meshing
/// (plus chunks whose mesh is dropped), or chunks to mesh right away.
pub enum RebuildWork {
    Nothing,
    Background(StreamingBatch),
    Sync(Vec<ChunkPosition>),
}

pub enum RebuildSpec {
    Nothing,
    Background(Seq<ChunkPosition>, Seq<ChunkPosition>),
    Sync(Seq<ChunkPosition>),
}

impl View for RebuildWork {
    type V = RebuildSpec;

    open spec fn view(&self) -> RebuildSpec {
        match self {
            RebuildWork::Nothing => RebuildSpec::Nothing,
            RebuildWork::Background(b) => RebuildSpec::Background(b.dispatched@, b.dropped@),
            RebuildWork::Sync(v) => RebuildSpec::Sync(v@),
        }
    }
}

/// The remesh step on queue `q0` once the dirty chunks, listed as `s`, are
/// taken: queue them, stop if nothing waits, sort by distance from
/// `center`, then dispatch in background or take a batch to mesh now.
pub open spec fn rebuild_step(
    q0: QueueState,
    s: Seq<ChunkPosition>,
    center: ChunkPosition,
    streaming: bool,
    present: Set<ChunkPosition>,
    qf: QueueState,
    work: RebuildSpec,
) -> bool {
    let q1 = enqueue_all(q0, s);
    if q1.queue.len() == 0 {
        qf == q1 && work == RebuildSpec::Nothing
    } else {
        let q2 = QueueState { queue: sort_by_dist(q1.queue, center), ..q1 };
        if streaming {
            let (r, d, x) = stream_batch(q2, present, CHUNKS_PER_FRAME as nat);
            qf == r && work == RebuildSpec::Background(d, x)
        } else {
            let n = min_nat(q2.queue.len(), CHUNKS_PER_FRAME as nat) as int;
            let b = q2.queue.take(n);
            &&& work == RebuildSpec::Sync(b)
            &&& qf == QueueState { queue: q2.queue.skip(n), pending: q2.pending.difference(b.to_set()), ..q2 }
        }
    }
}

impl MeshGenerationResource {
    /// Move the world's dirty chunks into the queue, order the queue by
    /// distance from the player's chunk and pick this frame's work.
    pub fn rebuild_dirty_meshes<W: crate::collision::CollisionWorld>(
        &mut self,
        world: &mut crate::resources::WorldResource<W>,
        player_chunk: &ChunkPosition,
        streaming: bool,
        present: &ChunkSet,
    ) -> (work: RebuildWork)
        ensures
            final(world).dirty_chunks@ == Set::<ChunkPosition>::empty(),
            final(world).chunk_manager == old(world).chunk_manager,
            final(world).use_streaming == old(world).use_streaming,
            final(world).chunks_ready == old(world).chunks_ready,
            exists|s: Seq<ChunkPosition>|
                #![trigger enqueue_all(queue_state(old(self)), s)]
                s.no_duplicates() && s.to_set() == old(world).dirty_chunks@
                && rebuild_step(queue_state(old(self)), s, *player_chunk, streaming, present@,
                    queue_state(final(self)), work@),
    {
        let dirty = world.take_dirty();
        let listed = dirty.to_vec();
        self.enqueue_dirty(&listed);
        let ghost q1 = queue_state(self);
        if self.pending_queue.len() == 0 {
            assert(enqueue_all(queue_state(old(self)), listed@) == q1);
            return RebuildWork::Nothing;
        }
        self.sort_pending(player_chunk);
        if streaming {
            let b = self.dispatch_streaming_batch(present);
            assert(enqueue_all(queue_state(old(self)), listed@) == q1);
            RebuildWork::Background(b)
        } else {
            let v = self.take_sync_batch();
            assert(enqueue_all(queue_state(old(self)), listed@) == q1);
            RebuildWork::Sync(v)
        }
    }
}


/// Per-frame streaming budgets chosen by the performance preset. The LOD
/// switch distances are whole world units.
#[derive(Debug, Clone, Copy)]
pub struct StreamingLimits {
    pub max_mesh_uploads_per_frame: usize,
    pub mesh_dispatch_multiplier: usize,
    pub mesh_dispatch_min: usize,
    pub mesh_dispatch_max: usize,
    pub max_loads_per_frame: usize,
    pub max_mesh_rebuilds_per_frame: usize,
    pub lod_distances: [u32; 6],
}

pub open spec fn spec_limits(p: PerformancePreset) -> (usize, usize, usize, usize, usize, usize, Seq<u32>) {
    match p {
        PerformancePreset::Potato => (20, 2, 8, 32, 24, 48, seq![96u32, 384, 640, 896, 1152, 1408]),
        PerformancePreset::Balanced => (32, 3, 12, 48, 36, 72, seq![160u32, 640, 960, 1280, 1600, 2048]),
        PerformancePreset::High => (48, 4, 16, 64, 48, 96, seq![224u32, 768, 1152, 1536, 1920, 2304]),
    }
}

impl StreamingLimits {
    pub open spec fn as_tuple(self) -> (usize, usize, usize, usize, usize, usize, Seq<u32>) {
        (self.max_mesh_uploads_per_frame, self.mesh_dispatch_multiplier, self.mesh_dispatch_min,
            self.mesh_dispatch_max, self.max_loads_per_frame, self.max_mesh_rebuilds_per_frame,
            self.lod_distances@)
    }

    /// Budgets for a performance preset.
    pub fn for_preset(preset: PerformancePreset) -> (r: Self)
        ensures
            r.as_tuple() == spec_limits(preset),
            r.mesh_dispatch_min <= r.mesh_dispatch_max,
    {
        let r = match preset {
            PerformancePreset::Potato => StreamingLimits {
                max_mesh_uploads_per_frame: 20,
                mesh_dispatch_multiplier: 2,
                mesh_dispatch_min: 8,
                mesh_dispatch_max: 32,
                max_loads_per_frame: 24,
                max_mesh_rebuilds_per_frame: 48,
                lod_distances: [96, 384, 640, 896, 1152, 1408],
            },
            PerformancePreset::Balanced => StreamingLimits {
                max_mesh_uploads_per_frame: 32,
                mesh_dispatch_multiplier: 3,
                mesh_dispatch_min: 12,
                mesh_dispatch_max: 48,
                max_loads_per_frame: 36,
                max_mesh_rebuilds_per_frame: 72,
                lod_distances: [160, 640, 960, 1280, 1600, 2048],
            },
            PerformancePreset::High => StreamingLimits {
                max_mesh_uploads_per_frame: 48,
                mesh_dispatch_multiplier: 4,
                mesh_dispatch_min: 16,
                mesh_dispatch_max: 64,
                max_loads_per_frame: 48,
                max_mesh_rebuilds_per_frame: 96,
                lod_distances: [224, 768, 1152, 1536, 1920, 2304],
            },
        };
        assert(r.lod_distances@ =~= spec_limits(preset).6);
        r
    }
}

pub open spec fn clamp(v: int, lo: int, hi: int) -> int {
    if v < lo { lo } else if v > hi { hi } else { v }
}

/// `rayon::current_num_threads`: the size of the current thread pool. It
/// depends on the machine and the pool's configuration, so nothing is
/// stated of it.
#[verifier::external_body]
fn worker_threads() -> usize {
    rayon::current_num_threads()
}

/// The dispatch cap for a pool of `threads` workers.
pub open spec fn spec_dispatch_cap(threads: usize, multiplier: usize, min: usize, max: usize) -> int {
    clamp(if threads * multiplier <= usize::MAX { threads * multiplier } else { usize::MAX as int },
        min as int, max as int)
}

/// `threads * multiplier` clamped to `[min, max]`; a product past
/// `usize::MAX` counts as `usize::MAX`.
pub fn dispatch_cap(threads: usize, multiplier: usize, min: usize, max: usize) -> (cap: usize)
    requires
        min <= max,
    ensures
        cap == spec_dispatch_cap(threads, multiplier, min, max),
{
    let t: usize = match threads.checked_mul(multiplier) {
        Some(t) => t,
        None => usize::MAX,
    };
    if t < min {
        min
    } else if t > max {
        max
    } else {
        t
    }
}

/// How many chunk meshes may be dispatched this frame, given the pool size.
pub fn mesh_dispatch_cap(limits: &StreamingLimits) -> (cap: usize)
    requires
        limits.mesh_dispatch_min <= limits.mesh_dispatch_max,
    ensures
        limits.mesh_dispatch_min <= cap <= limits.mesh_dispatch_max,
        exists|threads: usize| cap == #[trigger] spec_dispatch_cap(threads, limits.mesh_dispatch_multiplier,
            limits.mesh_dispatch_min, limits.mesh_dispatch_max),
{
    let threads = worker_threads();
    dispatch_cap(threads, limits.mesh_dispatch_multiplier, limits.mesh_dispatch_min, limits.mesh_dispatch_max)
}

/// How many LOD meshes may be dispatched this frame: the pool size clamped
/// to `[4, 16]`.
pub fn lod_dispatch_cap() -> (cap: usize)
    ensures
        4 <= cap <= 16,
        exists|threads: usize| cap == #[trigger] spec_dispatch_cap(threads, 1, 4, 16),
{
    let threads = worker_threads();
    dispatch_cap(threads, 1, 4, 16)
}

/// Dispatch of the streamer's mesh requests, taken closest first: stop when
/// `left` dispatches are used or the in-flight cap is reached; skip chunks
/// in flight and chunks whose region is not loaded; a chunk without data in
/// a loaded region is air and is reported as built. Yields the in-flight
/// set after, the dispatched chunks and the air chunks.
pub open spec fn plan_dispatch(
    reqs: Seq<ChunkPosition>,
    inflight: Set<ChunkPosition>,
    left: nat,
    unavailable: Set<ChunkPosition>,
    present: Set<ChunkPosition>,
) -> (Set<ChunkPosition>, Seq<ChunkPosition>, Seq<ChunkPosition>)
    decreases reqs.len(),
{
    if reqs.len() == 0 || left == 0 {
        (inflight, Seq::empty(), Seq::empty())
    } else {
        let p = reqs[0];
        let rest = reqs.drop_first();
        if inflight.contains(p) {
            plan_dispatch(rest, inflight, left, unavailable, present)
        } else if inflight.len() >= MAX_INFLIGHT {
            (inflight, Seq::empty(), Seq::empty())
        } else if unavailable.contains(p) {
            plan_dispatch(rest, inflight, left, unavailable, present)
        } else if !present.contains(p) {
            let (i, d, a) = plan_dispatch(rest, inflight, left, unavailable, present);
            (i, d, seq![p] + a)
        } else {
            let (i, d, a) = plan_dispatch(rest, inflight.insert(p), (left - 1) as nat, unavailable, present);
            (i, seq![p] + d, a)
        }
    }
}

/// Chunks to mesh in background this frame, and chunks found to be air.
pub struct DispatchPlan {
    pub dispatch: Vec<ChunkPosition>,
    pub air: Vec<ChunkPosition>,
}

/// Plan this frame's background meshing of the streamer's requests: sort
/// them by distance from the player's chunk, then dispatch as
/// `plan_dispatch` says, adding the dispatched chunks to `inflight`.
/// `unavailable` holds the requests whose region is not loaded yet and
/// `present` those whose voxel data is loaded.
pub fn plan_mesh_dispatch(
    requests: &Vec<ChunkPosition>,
    player_chunk: &ChunkPosition,
    inflight: &mut ChunkSet,
    cap: usize,
    unavailable: &ChunkSet,
    present: &ChunkSet,
) -> (plan: DispatchPlan)
    ensures
        (final(inflight)@, plan.dispatch@, plan.air@) == plan_dispatch(
            sort_by_dist(requests@, *player_chunk), old(inflight)@, cap as nat, unavailable@, present@),
{
    let sorted = sort_by_distance(requests, player_chunk);
    let mut dispatch: Vec<ChunkPosition> = Vec::new();
    let mut air: Vec<ChunkPosition> = Vec::new();
    let mut left: usize = cap;
    let mut i: usize = 0;
    let ghost total = plan_dispatch(sorted@, old(inflight)@, cap as nat, unavailable@, present@);
    proof {
        assert(sorted@.skip(0) =~= sorted@);
        let (f, d, a) = total;
        assert(dispatch@ + d =~= d);
        assert(air@ + a =~= a);
    }
    while i < sorted.len() && left > 0
        invariant
            i <= sorted@.len(),
            sorted@ == sort_by_dist(requests@, *player_chunk),
            total == plan_dispatch(sorted@, old(inflight)@, cap as nat, unavailable@, present@),
            ({
                let (f, d, a) = plan_dispatch(sorted@.skip(i as int), inflight@, left as nat, unavailable@, present@);
                total == (f, dispatch@ + d, air@ + a)
            }),
        decreases sorted@.len() - i,
    {
        let p = sorted[i];
        proof {
            let rest = sorted@.skip(i as int);
            assert(rest[0] == p);
            assert(rest.drop_first() =~= sorted@.skip(i + 1));
        }
        i = i + 1;
        if inflight.contains(&p) {
            continue;
        }
        if inflight.len() >= MAX_INFLIGHT {
            proof {
                let rest = sorted@.skip(i - 1);
                assert(rest.len() > 0);
                assert(plan_dispatch(rest, inflight@, left as nat, unavailable@, present@)
                    == (inflight@, Seq::<ChunkPosition>::empty(), Seq::<ChunkPosition>::empty()));
                assert(dispatch@ + Seq::<ChunkPosition>::empty() =~= dispatch@);
                assert(air@ + Seq::<ChunkPosition>::empty() =~= air@);
            }
            return DispatchPlan { dispatch, air };
        }
        if unavailable.contains(&p) {
            continue;
        }
        if !present.contains(&p) {
            let ghost old_air = air@;
            air.push(p);
            proof {
                let (f, d, a) = plan_dispatch(sorted@.skip(i as int), inflight@, left as nat, unavailable@, present@);
                assert(old_air + (seq![p] + a) =~= air@ + a);
            }
            continue;
        }
        inflight.insert(p);
        let ghost old_dispatch = dispatch@;
        dispatch.push(p);
        left = left - 1;
        proof {
            let (f, d, a) = plan_dispatch(sorted@.skip(i as int), inflight@, left as nat, unavailable@, present@);
            assert(old_dispatch + (seq![p] + d) =~= dispatch@ + d);
        }
    }
    proof {
        let (f, d, a) = plan_dispatch(sorted@.skip(i as int), inflight@, left as nat, unavailable@, present@);
        assert(d =~= Seq::<ChunkPosition>::empty());
        assert(a =~= Seq::<ChunkPosition>::empty());
        assert(dispatch@ + d =~= dispatch@);
        assert(air@ + a =~= air@);
    }
    DispatchPlan { dispatch, air }
}


/// The chunk mesh keys of the positions in `s`.
pub open spec fn chunk_keys(s: Seq<ChunkPosition>) -> Set<MeshKey> {
    Set::new(|k: MeshKey| match k {
        MeshKey::Chunk(q) => s.contains(q),
        MeshKey::LodNode(_) => false,
    })
}

/// The LOD mesh keys of the nodes in `s`.
pub open spec fn lod_keys(s: Seq<LodNodeKey>) -> Set<MeshKey> {
    Set::new(|k: MeshKey| match k {
        MeshKey::Chunk(_) => false,
        MeshKey::LodNode(q) => s.contains(q),
    })
}

/// Unloaded chunks lose their mesh (so distant chunk meshes never overlap
/// LOD meshes) and stop counting as in flight.
pub fn apply_unload_requests<M>(unloads: &Vec<ChunkPosition>, meshes: &mut MeshStorage<M>, inflight: &mut ChunkSet)
    ensures
        final(meshes)@ == old(meshes)@.remove_keys(chunk_keys(unloads@)),
        final(inflight)@ == old(inflight)@.difference(unloads@.to_set()),
{
    let mut i: usize = 0;
    proof {
        assert(unloads@.subrange(0, 0).to_set() =~= Set::<ChunkPosition>::empty());
        assert(chunk_keys(unloads@.subrange(0, 0)) =~= Set::<MeshKey>::empty());
        assert(meshes@ =~= old(meshes)@.remove_keys(Set::<MeshKey>::empty()));
        assert(inflight@ =~= old(inflight)@.difference(Set::<ChunkPosition>::empty()));
    }
    while i < unloads.len()
        invariant
            i <= unloads@.len(),
            meshes@ == old(meshes)@.remove_keys(chunk_keys(unloads@.subrange(0, i as int))),
            inflight@ == old(inflight)@.difference(unloads@.subrange(0, i as int).to_set()),
        decreases unloads@.len() - i,
    {
        let p = unloads[i];
        meshes.remove(&MeshKey::Chunk(p));
        inflight.remove(&p);
        proof {
            let pre = unloads@.subrange(0, i as int);
            let post = unloads@.subrange(0, i + 1);
            assert(post =~= pre.push(p));
            pre.lemma_push_to_set_commute(p);
            assert forall|q: ChunkPosition| post.contains(q) <==> pre.contains(q) || q == p by {
                if post.contains(q) {
                    let j = choose|j: int| 0 <= j < post.len() && post[j] == q;
                    if j < pre.len() {
                        assert(pre[j] == q);
                    }
                }
                if pre.contains(q) {
                    let j = choose|j: int| 0 <= j < pre.len() && pre[j] == q;
                    assert(post[j] == q);
                }
                if q == p {
                    assert(post[pre.len() as int] == q);
                }
            }
            assert(chunk_keys(post) =~= chunk_keys(pre).insert(MeshKey::Chunk(p)));
            assert(meshes@ =~= old(meshes)@.remove_keys(chunk_keys(post)));
            assert(inflight@ =~= old(inflight)@.difference(post.to_set()));
        }
        i = i + 1;
    }
    assert(unloads@.subrange(0, unloads@.len() as int) =~= unloads@);
}

/// LOD nodes that left the view lose their mesh.
pub fn remove_lod_meshes<M>(keys: &Vec<LodNodeKey>, meshes: &mut MeshStorage<M>)
    ensures
        final(meshes)@ == old(meshes)@.remove_keys(lod_keys(keys@)),
{
    let mut i: usize = 0;
    proof {
        assert(lod_keys(keys@.subrange(0, 0)) =~= Set::<MeshKey>::empty());
        assert(meshes@ =~= old(meshes)@.remove_keys(Set::<MeshKey>::empty()));
    }
    while i < keys.len()
        invariant
            i <= keys@.len(),
            meshes@ == old(meshes)@.remove_keys(lod_keys(keys@.subrange(0, i as int))),
        decreases keys@.len() - i,
    {
        let k = keys[i];
        meshes.remove(&MeshKey::LodNode(k));
        proof {
            let pre = keys@.subrange(0, i as int);
            let post = keys@.subrange(0, i + 1);
            assert(post =~= pre.push(k));
            assert forall|q: LodNodeKey| post.contains(q) <==> pre.contains(q) || q == k by {
                if post.contains(q) {
                    let j = choose|j: int| 0 <= j < post.len() && post[j] == q;
                    if j < pre.len() {
                        assert(pre[j] == q);
                    }
                }
                if pre.contains(q) {
                    let j = choose|j: int| 0 <= j < pre.len() && pre[j] == q;
                    assert(post[j] == q);
                }
                if q == k {
                    assert(post[pre.len() as int] == q);
                }
            }
            assert(lod_keys(post) =~= lod_keys(pre).insert(MeshKey::LodNode(k)));
            assert(meshes@ =~= old(meshes)@.remove_keys(lod_keys(post)));
        }
        i = i + 1;
    }
    assert(keys@.subrange(0, keys@.len() as int) =~= keys@);
}

/// Horizontal radius, in chunks, of the area that must be ready before the
/// player is released.
pub const READY_RADIUS: i32 = 3;

/// Highest terrain, in voxels.
pub const MAX_TERRAIN_VOXEL_HEIGHT: i32 = 900;

/// Edge length of a chunk, in voxels.
pub const CHUNK_SIZE: i32 = 32;

/// The support chunks around the player that the readiness check looks at:
/// within `READY_RADIUS` horizontally, from two chunks below the player's
/// chunk up to it, and inside the terrain's vertical range.
pub open spec fn ready_candidate(pc: ChunkPosition, max_y: int, p: ChunkPosition) -> bool {
    &&& pc.x - READY_RADIUS <= p.x <= pc.x + READY_RADIUS
    &&& pc.z - READY_RADIUS <= p.z <= pc.z + READY_RADIUS
    &&& pc.y - 2 <= p.y <= pc.y
    &&& 0 <= p.y <= max_y
}

/// Lists the readiness candidates around `pc`, each once; `max_y` is the
/// highest chunk layer that can hold terrain.
pub fn ready_check_positions(pc: &ChunkPosition, max_y: i32) -> (v: Vec<ChunkPosition>)
    requires
        i32::MIN + READY_RADIUS <= pc.x <= i32::MAX - READY_RADIUS,
        i32::MIN + READY_RADIUS <= pc.z <= i32::MAX - READY_RADIUS,
        i32::MIN + 2 <= pc.y,
    ensures
        v@.no_duplicates(),
        forall|p: ChunkPosition| v@.contains(p) <==> ready_candidate(*pc, max_y as int, p),
{
    let mut v: Vec<ChunkPosition> = Vec::new();
    let mut dx: i32 = -READY_RADIUS;
    while dx <= READY_RADIUS
        invariant
            -READY_RADIUS <= dx <= READY_RADIUS + 1,
            i32::MIN + READY_RADIUS <= pc.x <= i32::MAX - READY_RADIUS,
            i32::MIN + READY_RADIUS <= pc.z <= i32::MAX - READY_RADIUS,
            i32::MIN + 2 <= pc.y,
            v@.no_duplicates(),
            forall|p: ChunkPosition| v@.contains(p) <==> (ready_candidate(*pc, max_y as int, p) && p.x < pc.x + dx),
        decreases READY_RADIUS + 1 - dx,
    {
        let mut dz: i32 = -READY_RADIUS;
        while dz <= READY_RADIUS
            invariant
                -READY_RADIUS <= dx <= READY_RADIUS,
                -READY_RADIUS <= dz <= READY_RADIUS + 1,
                i32::MIN + READY_RADIUS <= pc.x <= i32::MAX - READY_RADIUS,
                i32::MIN + READY_RADIUS <= pc.z <= i32::MAX - READY_RADIUS,
                i32::MIN + 2 <= pc.y,
                v@.no_duplicates(),
                forall|p: ChunkPosition| v@.contains(p) <==> (ready_candidate(*pc, max_y as int, p)
                    && (p.x < pc.x + dx || (p.x == pc.x + dx && p.z < pc.z + dz))),
            decreases READY_RADIUS + 1 - dz,
        {
            let mut dy: i32 = -2;
            while dy <= 0
                invariant
                    -READY_RADIUS <= dx <= READY_RADIUS,
                    -READY_RADIUS <= dz <= READY_RADIUS,
                    -2 <= dy <= 1,
                    i32::MIN + READY_RADIUS <= pc.x <= i32::MAX - READY_RADIUS,
                    i32::MIN + READY_RADIUS <= pc.z <= i32::MAX - READY_RADIUS,
                    i32::MIN + 2 <= pc.y,
                    v@.no_duplicates(),
                    forall|p: ChunkPosition| v@.contains(p) <==> (ready_candidate(*pc, max_y as int, p)
                        && (p.x < pc.x + dx || (p.x == pc.x + dx && p.z < pc.z + dz)
                            || (p.x == pc.x + dx && p.z == pc.z + dz && p.y < pc.y + dy))),
                decreases 1 - dy,
            {
                let p = ChunkPosition::new(pc.x + dx, pc.y + dy, pc.z + dz);
                if p.y >= 0 && p.y <= max_y {
                    let ghost before = v@;
                    v.push(p);
                    proof {
                        assert forall|q: ChunkPosition| v@.contains(q) <==> before.contains(q) || q == p by {
                            if v@.contains(q) {
                                let j = choose|j: int| 0 <= j < v@.len() && v@[j] == q;
                                if j < before.len() {
                                    assert(before[j] == q);
                                }
                            }
                            if before.contains(q) {
                                let j = choose|j: int| 0 <= j < before.len() && before[j] == q;
                                assert(v@[j] == q);
                            }
                            if q == p {
                                assert(v@[before.len() as int] == q);
                            }
                        }
                        assert(!before.contains(p));
                    }
                }
                dy = dy + 1;
            }
            dz = dz + 1;
        }
        dx = dx + 1;
    }
    v
}

/// Voxel column at the horizontal centre of a chunk.
pub fn chunk_center_column(p: &ChunkPosition) -> (c: (i32, i32))
    requires
        i32::MIN <= p.x * CHUNK_SIZE + CHUNK_SIZE / 2 <= i32::MAX,
        i32::MIN <= p.z * CHUNK_SIZE + CHUNK_SIZE / 2 <= i32::MAX,
    ensures
        c.0 == p.x * CHUNK_SIZE + CHUNK_SIZE / 2,
        c.1 == p.z * CHUNK_SIZE + CHUNK_SIZE / 2,
{
    (p.x * CHUNK_SIZE + CHUNK_SIZE / 2, p.z * CHUNK_SIZE + CHUNK_SIZE / 2)
}

/// Whether the player may be released: every candidate that can support
/// the player (not more than one chunk layer above the terrain surface
/// there) has a mesh or holds voxel data. `surface_chunk_y[i]` is the chunk
/// layer of the terrain surface at candidate `i`.
pub fn nearby_chunks_ready(
    candidates: &Vec<ChunkPosition>,
    surface_chunk_y: &Vec<i32>,
    meshed: &ChunkSet,
    loaded: &ChunkSet,
) -> (ready: bool)
    requires
        candidates@.len() == surface_chunk_y@.len(),
    ensures
        ready == forall|i: int| 0 <= i < candidates@.len() ==>
            (#[trigger] candidates@[i]).y > surface_chunk_y@[i] + 1
            || meshed@.contains(candidates@[i]) || loaded@.contains(candidates@[i]),
{
    let mut i: usize = 0;
    while i < candidates.len()
        invariant
            i <= candidates@.len(),
            candidates@.len() == surface_chunk_y@.len(),
            forall|j: int| 0 <= j < i ==>
                (#[trigger] candidates@[j]).y > surface_chunk_y@[j] + 1
                || meshed@.contains(candidates@[j]) || loaded@.contains(candidates@[j]),
        decreases candidates@.len() - i,
    {
        let p = candidates[i];
        if p.y as i64 <= surface_chunk_y[i] as i64 + 1 {
            if !meshed.contains(&p) && !loaded.contains(&p) {
                return false;
            }
        }
        i = i + 1;
    }
    true
}


/// Requesting the same chunk twice queues it at most once.
pub proof fn law_request_mesh_idempotent(q: QueueState, p: ChunkPosition)
    ensures
        spec_request_mesh(spec_request_mesh(q, p), p) == spec_request_mesh(q, p),
{
}

/// Requesting a mesh keeps the queue free of duplicates and in step with
/// the pending set.
pub proof fn law_request_mesh_keeps_queue_wf(q: QueueState, p: ChunkPosition)
    requires
        queue_wf(q),
    ensures
        queue_wf(spec_request_mesh(q, p)),
{
    if !q.inflight.contains(p) && !q.pending.contains(p) {
        q.queue.lemma_push_to_set_commute(p);
        assert(!q.queue.contains(p));
        let r = q.queue.push(p);
        assert forall|i: int, j: int| 0 <= i < j < r.len() implies r[i] != r[j] by {
            if j == q.queue.len() {
                assert(q.queue.contains(r[i]));
            }
        }
    }
}

/// Queuing dirty chunks keeps the queue free of duplicates and in step
/// with the pending set.
pub proof fn law_enqueue_keeps_queue_wf(q: QueueState, dirty: Seq<ChunkPosition>)
    requires
        queue_wf(q),
    ensures
        queue_wf(enqueue_all(q, dirty)),
        enqueue_all(q, dirty).inflight == q.inflight,
        enqueue_all(q, dirty).pending == q.pending.union(dirty.to_set()),
    decreases dirty.len(),
{
    if dirty.len() > 0 {
        let t = dirty.drop_last();
        law_enqueue_keeps_queue_wf(q, t);
        let q1 = enqueue_all(q, t);
        let p = dirty.last();
        assert(dirty =~= t.push(p));
        t.lemma_push_to_set_commute(p);
        if !q1.pending.contains(p) {
            law_request_mesh_keeps_queue_wf(QueueState { inflight: Set::empty(), ..q1 }, p);
        }
        assert(enqueue_all(q, dirty).pending =~= q.pending.union(dirty.to_set()));
    } else {
        assert(dirty.to_set() =~= Set::<ChunkPosition>::empty());
        assert(q.pending.union(dirty.to_set()) =~= q.pending);
    }
}

/// A frame of background dispatch never exceeds the in-flight cap, hands
/// out at most `n` chunks, dispatches only chunks with data that were not
/// in flight, and adds exactly them to the in-flight set.
pub proof fn law_stream_batch_bounds(q: QueueState, present: Set<ChunkPosition>, n: nat)
    requires
        q.inflight.finite(),
        q.inflight.len() <= MAX_INFLIGHT,
    ensures
        ({
            let (r, d, x) = stream_batch(q, present, n);
            &&& r.inflight.finite()
            &&& r.inflight.len() <= MAX_INFLIGHT
            &&& d.len() + x.len() <= n
            &&& r.inflight == q.inflight.union(d.to_set())
            &&& forall|i: int| 0 <= i < d.len() ==> present.contains(#[trigger] d[i]) && !q.inflight.contains(d[i])
            &&& forall|i: int| 0 <= i < x.len() ==> !present.contains(#[trigger] x[i])
        }),
    decreases n,
{
    if n == 0 || q.queue.len() == 0 {
        assert(Seq::<ChunkPosition>::empty().to_set() =~= Set::<ChunkPosition>::empty());
        assert(q.inflight.union(Set::<ChunkPosition>::empty()) =~= q.inflight);
    } else {
        let p = q.queue[0];
        let q1 = QueueState { queue: q.queue.drop_first(), pending: q.pending.remove(p), ..q };
        if q1.inflight.contains(p) {
            law_stream_batch_bounds(q1, present, (n - 1) as nat);
        } else if q1.inflight.len() >= MAX_INFLIGHT {
            assert(Seq::<ChunkPosition>::empty().to_set() =~= Set::<ChunkPosition>::empty());
            assert(q.inflight.union(Set::<ChunkPosition>::empty()) =~= q.inflight);
        } else if !present.contains(p) {
            law_stream_batch_bounds(q1, present, (n - 1) as nat);
            let (r, d, x) = stream_batch(q1, present, (n - 1) as nat);
            assert forall|i: int| 0 <= i < (seq![p] + x).len() implies !present.contains(#[trigger] (seq![p] + x)[i]) by {
                if i > 0 {
                    assert((seq![p] + x)[i] == x[i - 1]);
                }
            }
        } else {
            let q2 = QueueState { inflight: q1.inflight.insert(p), ..q1 };
            assert(q2.inflight.len() == q1.inflight.len() + 1);
            law_stream_batch_bounds(q2, present, (n - 1) as nat);
            let (r, d, x) = stream_batch(q2, present, (n - 1) as nat);
            let d2 = seq![p] + d;
            assert forall|i: int| 0 <= i < d2.len() implies present.contains(#[trigger] d2[i]) && !q.inflight.contains(d2[i]) by {
                if i > 0 {
                    assert(d2[i] == d[i - 1]);
                }
            }
            assert(d2.to_set() =~= d.to_set().insert(p)) by {
                assert forall|y: ChunkPosition| d2.contains(y) <==> d.contains(y) || y == p by {
                    if d2.contains(y) {
                        let k = choose|k: int| 0 <= k < d2.len() && d2[k] == y;
                        if k > 0 {
                            assert(d[k - 1] == y);
                        }
                    }
                    if d.contains(y) {
                        let k = choose|k: int| 0 <= k < d.len() && d[k] == y;
                        assert(d2[k + 1] == y);
                    }
                    if y == p {
                        assert(d2[0] == y);
                    }
                }
            }
            assert(r.inflight =~= q.inflight.union(d2.to_set()));
        }
    }
}

/// Planning the streamer's dispatch never exceeds the in-flight cap or the
/// frame's budget, dispatches only loaded chunks with data that were not in
/// flight, and adds exactly them to the in-flight set.
pub proof fn law_plan_dispatch_bounds(
    reqs: Seq<ChunkPosition>,
    inflight: Set<ChunkPosition>,
    left: nat,
    unavailable: Set<ChunkPosition>,
    present: Set<ChunkPosition>,
)
    requires
        inflight.finite(),
        inflight.len() <= MAX_INFLIGHT,
    ensures
        ({
            let (f, d, a) = plan_dispatch(reqs, inflight, left, unavailable, present);
            &&& f.finite()
            &&& f.len() <= MAX_INFLIGHT
            &&& d.len() <= left
            &&& f == inflight.union(d.to_set())
            &&& forall|i: int| 0 <= i < d.len() ==> present.contains(#[trigger] d[i])
                && !unavailable.contains(d[i]) && !inflight.contains(d[i])
            &&& forall|i: int| 0 <= i < a.len() ==> !present.contains(#[trigger] a[i]) && !unavailable.contains(a[i])
        }),
    decreases reqs.len(),
{
    if reqs.len() == 0 || left == 0 {
        assert(Seq::<ChunkPosition>::empty().to_set() =~= Set::<ChunkPosition>::empty());
        assert(inflight.union(Set::<ChunkPosition>::empty()) =~= inflight);
    } else {
        let p = reqs[0];
        let rest = reqs.drop_first();
        if inflight.contains(p) {
            law_plan_dispatch_bounds(rest, inflight, left, unavailable, present);
        } else if inflight.len() >= MAX_INFLIGHT {
            assert(Seq::<ChunkPosition>::empty().to_set() =~= Set::<ChunkPosition>::empty());
            assert(inflight.union(Set::<ChunkPosition>::empty()) =~= inflight);
        } else if unavailable.contains(p) {
            law_plan_dispatch_bounds(rest, inflight, left, unavailable, present);
        } else if !present.contains(p) {
            law_plan_dispatch_bounds(rest, inflight, left, unavailable, present);
            let (f, d, a) = plan_dispatch(rest, inflight, left, unavailable, present);
            assert forall|i: int| 0 <= i < (seq![p] + a).len() implies
                !present.contains(#[trigger] (seq![p] + a)[i]) && !unavailable.contains((seq![p] + a)[i]) by {
                if i > 0 {
                    assert((seq![p] + a)[i] == a[i - 1]);
                }
            }
        } else {
            let i2 = inflight.insert(p);
            assert(i2.len() == inflight.len() + 1);
            law_plan_dispatch_bounds(rest, i2, (left - 1) as nat, unavailable, present);
            let (f, d, a) = plan_dispatch(rest, i2, (left - 1) as nat, unavailable, present);
            let d2 = seq![p] + d;
            assert forall|i: int| 0 <= i < d2.len() implies present.contains(#[trigger] d2[i])
                && !unavailable.contains(d2[i]) && !inflight.contains(d2[i]) by {
                if i > 0 {
                    assert(d2[i] == d[i - 1]);
                }
            }
            assert(d2.to_set() =~= d.to_set().insert(p)) by {
                assert forall|y: ChunkPosition| d2.contains(y) <==> d.contains(y) || y == p by {
                    if d2.contains(y) {
                        let k = choose|k: int| 0 <= k < d2.len() && d2[k] == y;
                        if k > 0 {
                            assert(d[k - 1] == y);
                        }
                    }
                    if d.contains(y) {
                        let k = choose|k: int| 0 <= k < d.len() && d[k] == y;
                        assert(d2[k + 1] == y);
                    }
                    if y == p {
                        assert(d2[0] == y);
                    }
                }
            }
            assert(f =~= inflight.union(d2.to_set()));
        }
    }
}


/// Two sequences with the same elements, counted, agree on duplicates and
/// on their set of elements.
proof fn lemma_same_multiset(a: Seq<ChunkPosition>, b: Seq<ChunkPosition>)
    requires
        a.to_multiset() == b.to_multiset(),
    ensures
        a.no_duplicates() ==> b.no_duplicates(),
        a.to_set() == b.to_set(),
{
    broadcast use vstd::multiset::group_multiset_axioms;
    if a.no_duplicates() {
        a.lemma_multiset_has_no_duplicates();
        b.lemma_multiset_has_no_duplicates_conv();
    }
    assert forall|x: ChunkPosition| a.to_set().contains(x) <==> b.to_set().contains(x) by {
        assert(a.contains(x) <==> a.to_multiset().count(x) > 0);
        assert(b.contains(x) <==> b.to_multiset().count(x) > 0);
    }
    assert(a.to_set() =~= b.to_set());
}

/// Sorting the queue by distance keeps it free of duplicates and in step
/// with the pending set.
pub proof fn law_sort_keeps_queue_wf(q: QueueState, c: ChunkPosition)
    requires
        queue_wf(q),
    ensures
        queue_wf(QueueState { queue: sort_by_dist(q.queue, c), ..q }),
{
    lemma_sort_by_dist(q.queue, c);
    lemma_same_multiset(q.queue, sort_by_dist(q.queue, c));
}

/// A frame of background dispatch keeps the queue free of duplicates and
/// in step with the pending set.
pub proof fn law_stream_batch_keeps_queue_wf(q: QueueState, present: Set<ChunkPosition>, n: nat)
    requires
        queue_wf(q),
    ensures
        queue_wf(stream_batch(q, present, n).0),
    decreases n,
{
    if n == 0 || q.queue.len() == 0 {
    } else {
        let p = q.queue[0];
        let q1 = QueueState { queue: q.queue.drop_first(), pending: q.pending.remove(p), ..q };
        assert(q.queue =~= seq![p] + q1.queue);
        assert(!q1.queue.contains(p)) by {
            if q1.queue.contains(p) {
                let k = choose|k: int| 0 <= k < q1.queue.len() && q1.queue[k] == p;
                assert(q.queue[k + 1] == p);
            }
        }
        assert(q1.queue.to_set() =~= q.pending.remove(p)) by {
            assert forall|y: ChunkPosition| q1.queue.contains(y) <==> q.queue.contains(y) && y != p by {
                if q1.queue.contains(y) {
                    let k = choose|k: int| 0 <= k < q1.queue.len() && q1.queue[k] == y;
                    assert(q.queue[k + 1] == y);
                }
                if q.queue.contains(y) && y != p {
                    let k = choose|k: int| 0 <= k < q.queue.len() && q.queue[k] == y;
                    assert(k != 0);
                    assert(q1.queue[k - 1] == y);
                }
            }
        }
        assert(queue_wf(q1));
        if q1.inflight.contains(p) {
            law_stream_batch_keeps_queue_wf(q1, present, (n - 1) as nat);
        } else if q1.inflight.len() >= MAX_INFLIGHT {
            let r = QueueState { queue: q1.queue.push(p), pending: q1.pending.insert(p), ..q1 };
            law_request_mesh_keeps_queue_wf(QueueState { inflight: Set::empty(), ..q1 }, p);
        } else if !present.contains(p) {
            law_stream_batch_keeps_queue_wf(q1, present, (n - 1) as nat);
        } else {
            let q2 = QueueState { inflight: q1.inflight.insert(p), ..q1 };
            law_stream_batch_keeps_queue_wf(q2, present, (n - 1) as nat);
        }
    }
}

} // verus!
