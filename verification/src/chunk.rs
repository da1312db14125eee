//! Chunk coordinates, mesh keys and their exact integer encodings.

use std::collections::HashSet;
use vstd::prelude::*;
use vstd::arithmetic::div_mod::lemma_fundamental_div_mod_converse;

verus! {

broadcast use vstd::std_specs::hash::group_hash_axioms;

/// 2^31: offset that maps an `i32` onto `0..2^32`.
pub open spec fn half_range() -> int {
    0x8000_0000
}

/// 2^32
pub open spec fn word() -> int {
    0x1_0000_0000
}

/// Position of a chunk in chunk coordinates.
#[derive(Clone, Copy, Debug, PartialEq, Eq, Structural)]
pub struct ChunkPosition {
    pub x: i32,
    pub y: i32,
    pub z: i32,
}

/// Exact integer packing of three `i32` coordinates into `0..2^96`.
pub open spec fn xyz_key(x: i32, y: i32, z: i32) -> int {
    (x + half_range()) * (word() * word()) + (y + half_range()) * word() + (z + half_range())
}

/// Inverse of `xyz_key` on its range.
pub open spec fn xyz_decode(k: int) -> (i32, i32, i32) {
    (
        (k / (word() * word()) - half_range()) as i32,
        ((k / word()) % word() - half_range()) as i32,
        (k % word() - half_range()) as i32,
    )
}

pub proof fn lemma_xyz_roundtrip(x: i32, y: i32, z: i32)
    ensures
        xyz_decode(xyz_key(x, y, z)) == (x, y, z),
        0 <= xyz_key(x, y, z) < word() * word() * word(),
{
    let a = x + half_range();
    let b = y + half_range();
    let c = z + half_range();
    let k = xyz_key(x, y, z);
    assert(a * (word() * word()) == (a * word()) * word()) by (nonlinear_arith);
    assert(k == (a * word() + b) * word() + c) by (nonlinear_arith)
        requires k == a * (word() * word()) + b * word() + c, a * (word() * word()) == (a * word()) * word();
    lemma_fundamental_div_mod_converse(k, word(), a * word() + b, c);
    lemma_fundamental_div_mod_converse(a * word() + b, word(), a, b);
    assert(k / word() / word() == k / (word() * word())) by {
        vstd::arithmetic::div_mod::lemma_div_denominator(k, word(), word());
    }
    assert(0 <= a < word() && 0 <= b < word() && 0 <= c < word());
    assert(a * (word() * word()) <= (word() - 1) * (word() * word())) by (nonlinear_arith)
        requires 0 <= a < word();
    assert(b * word() <= (word() - 1) * word()) by (nonlinear_arith)
        requires 0 <= b < word();
    assert(0 <= a * (word() * word())) by (nonlinear_arith) requires 0 <= a;
    assert(0 <= b * word()) by (nonlinear_arith) requires 0 <= b;
}

/// Computes `xyz_key` in machine integers.
fn pack_xyz(x: i32, y: i32, z: i32) -> (k: u128)
    ensures
        k == xyz_key(x, y, z),
{
    proof {
        lemma_xyz_roundtrip(x, y, z);
    }
    let a = (x as i64 + 0x8000_0000) as u128;
    let b = (y as i64 + 0x8000_0000) as u128;
    let c = (z as i64 + 0x8000_0000) as u128;
    proof {
        assert(a * (word() * word()) <= (word() - 1) * (word() * word())) by (nonlinear_arith)
            requires 0 <= a < word();
        assert(b * word() <= (word() - 1) * word()) by (nonlinear_arith)
            requires 0 <= b < word();
    }
    a * 0x1_0000_0000_0000_0000u128 + b * 0x1_0000_0000u128 + c
}

impl ChunkPosition {
    pub fn new(x: i32, y: i32, z: i32) -> (r: Self)
        ensures
            r == (ChunkPosition { x, y, z }),
    {
        ChunkPosition { x, y, z }
    }

    /// The set key of this position.
    pub open spec fn spec_key(self) -> int {
        xyz_key(self.x, self.y, self.z)
    }

    /// Packs the position into a single integer key, injectively.
    pub fn key(&self) -> (k: u128)
        ensures
            k == self.spec_key(),
    {
        pack_xyz(self.x, self.y, self.z)
    }
}

/// Position decoded from a set key.
pub open spec fn decode_chunk_key(k: u128) -> ChunkPosition {
    let t = xyz_decode(k as int);
    ChunkPosition { x: t.0, y: t.1, z: t.2 }
}

/// Computes `decode_chunk_key`.
fn decode_key(k: u128) -> (p: ChunkPosition)
    requires
        valid_chunk_key(k),
    ensures
        p == decode_chunk_key(k),
{
    proof {
        let p = decode_chunk_key(k);
        lemma_xyz_roundtrip(p.x, p.y, p.z);
    }
    let hi = k / 0x1_0000_0000_0000_0000u128;
    let mid = (k / 0x1_0000_0000u128) % 0x1_0000_0000u128;
    let lo = k % 0x1_0000_0000u128;
    ChunkPosition {
        x: (hi as i64 - 0x8000_0000) as i32,
        y: (mid as i64 - 0x8000_0000) as i32,
        z: (lo as i64 - 0x8000_0000) as i32,
    }
}

/// A key is valid when it is the key of some position.
pub open spec fn valid_chunk_key(k: u128) -> bool {
    decode_chunk_key(k).spec_key() == k
}

pub proof fn lemma_chunk_key_roundtrip(p: ChunkPosition)
    ensures
        decode_chunk_key(p.spec_key() as u128) == p,
        valid_chunk_key(p.spec_key() as u128),
        0 <= p.spec_key() < word() * word() * word(),
{
    lemma_xyz_roundtrip(p.x, p.y, p.z);
    assert(word() * word() * word() <= u128::MAX) by (nonlinear_arith);
}

/// A set of chunk positions, stored as a hash set of their integer keys.
#[derive(Debug)]
pub struct ChunkSet {
    keys: HashSet<u128>,
}

impl View for ChunkSet {
    type V = Set<ChunkPosition>;

    closed spec fn view(&self) -> Set<ChunkPosition> {
        self.keys@.map(|k: u128| decode_chunk_key(k))
    }
}

impl ChunkSet {
    #[verifier::type_invariant]
    spec fn inv(self) -> bool {
        &&& self.keys@.finite()
        &&& forall|k: u128| self.keys@.contains(k) ==> valid_chunk_key(k)
    }

    proof fn lemma_view(&self, p: ChunkPosition)
        requires
            self.inv(),
        ensures
            self@.contains(p) == self.keys@.contains(p.spec_key() as u128),
    {
        lemma_chunk_key_roundtrip(p);
        if self@.contains(p) {
            let k = choose|k: u128| self.keys@.contains(k) && decode_chunk_key(k) == p;
            assert(self.keys@.contains(k));
            assert(valid_chunk_key(k));
            assert(decode_chunk_key(k) == p);
            assert(k == p.spec_key());
        }
        if self.keys@.contains(p.spec_key() as u128) {
            assert(decode_chunk_key(p.spec_key() as u128) == p);
        }
    }

    proof fn lemma_len(&self)
        requires
            self.inv(),
        ensures
            self@.finite(),
            self@.len() == self.keys@.len(),
    {
        let f = |k: u128| decode_chunk_key(k);
        assert forall|a: u128, b: u128|
            self.keys@.contains(a) && self.keys@.contains(b) && #[trigger] f(a) == #[trigger] f(b)
            implies a == b by {
            assert(valid_chunk_key(a));
            assert(valid_chunk_key(b));
        }
        self.keys@.lemma_map_finite(f);
        vstd::set_lib::lemma_map_size(self.keys@, self@, f);
    }

    pub fn new() -> (r: Self)
        ensures
            r@ == Set::<ChunkPosition>::empty(),
    {
        let r = ChunkSet { keys: HashSet::new() };
        assert(r@ =~= Set::<ChunkPosition>::empty());
        r
    }

    pub fn len(&self) -> (n: usize)
        ensures
            self@.finite(),
            n == self@.len(),
    {
        proof {
            use_type_invariant(self);
            self.lemma_len();
        }
        self.keys.len()
    }

    pub fn is_empty(&self) -> (b: bool)
        ensures
            self@.finite(),
            b == (self@.len() == 0),
    {
        self.len() == 0
    }

    pub fn contains(&self, p: &ChunkPosition) -> (b: bool)
        ensures
            b == self@.contains(*p),
    {
        proof {
            use_type_invariant(self);
            self.lemma_view(*p);
        }
        self.keys.contains(&p.key())
    }

    /// Lists the positions in the set, each exactly once, in unspecified order.
    pub fn to_vec(&self) -> (v: Vec<ChunkPosition>)
        ensures
            v@.no_duplicates(),
            v@.to_set() == self@,
            v@.len() == self@.len(),
            self@.finite(),
    {
        proof {
            use_type_invariant(self);
            self.lemma_len();
        }
        let mut v: Vec<ChunkPosition> = Vec::new();
        let ghost keys_seq = vstd::std_specs::iter::IteratorSpec::remaining(
            &vstd::std_specs::hash::spec_hash_keys_iter(&self.keys),
        ).unref();
        for k in it: self.keys.iter()
            invariant
                keys_seq == it.seq().unref(),
                keys_seq.no_duplicates(),
                keys_seq.to_set() == self.keys@,
                keys_seq.len() == self.keys@.len(),
                self.inv(),
                v@.len() == it.index(),
                forall|i: int| 0 <= i < it.index() ==> v@[i] == decode_chunk_key(#[trigger] keys_seq[i]),
        {
            v.push(decode_key(*k));
        }
        proof {
            assert forall|i: int, j: int| 0 <= i < j < v@.len() implies v@[i] != v@[j] by {
                assert(self.keys@.contains(keys_seq[i]));
                assert(self.keys@.contains(keys_seq[j]));
                assert(valid_chunk_key(keys_seq[i]));
                assert(valid_chunk_key(keys_seq[j]));
            }
            assert forall|p: ChunkPosition| v@.to_set().contains(p) == self@.contains(p) by {
                self.lemma_view(p);
                lemma_chunk_key_roundtrip(p);
                if self@.contains(p) {
                    let kk = p.spec_key() as u128;
                    assert(keys_seq.to_set().contains(kk));
                    let i = choose|i: int| 0 <= i < keys_seq.len() && keys_seq[i] == kk;
                    assert(v@[i] == p);
                }
                if v@.to_set().contains(p) {
                    let i = choose|i: int| 0 <= i < v@.len() && v@[i] == p;
                    assert(keys_seq.to_set().contains(keys_seq[i]));
                }
            }
            assert(v@.to_set() =~= self@);
        }
        v
    }

    /// Inserts `p`; returns whether it was absent.
    pub fn insert(&mut self, p: ChunkPosition) -> (added: bool)
        ensures
            final(self)@ == old(self)@.insert(p),
            added == !old(self)@.contains(p),
    {
        proof {
            use_type_invariant(&*self);
            self.lemma_view(p);
            lemma_chunk_key_roundtrip(p);
        }
        let k = p.key();
        let mut keys = HashSet::new();
        std::mem::swap(&mut keys, &mut self.keys);
        let added = keys.insert(k);
        self.keys = keys;
        proof {
            use_type_invariant(&*self);
            assert forall|q: ChunkPosition|
                #[trigger] self@.contains(q) == old(self)@.insert(p).contains(q) by {
                self.lemma_view(q);
                old(self).lemma_view(q);
                lemma_chunk_key_roundtrip(q);
            }
            assert(self@ =~= old(self)@.insert(p));
        }
        added
    }

    /// Removes `p`; returns whether it was present.
    pub fn remove(&mut self, p: &ChunkPosition) -> (removed: bool)
        ensures
            final(self)@ == old(self)@.remove(*p),
            removed == old(self)@.contains(*p),
    {
        proof {
            use_type_invariant(&*self);
            self.lemma_view(*p);
            lemma_chunk_key_roundtrip(*p);
        }
        let k = p.key();
        let mut keys = HashSet::new();
        std::mem::swap(&mut keys, &mut self.keys);
        let removed = keys.remove(&k);
        self.keys = keys;
        proof {
            use_type_invariant(&*self);
            assert forall|q: ChunkPosition|
                #[trigger] self@.contains(q) == old(self)@.remove(*p).contains(q) by {
                self.lemma_view(q);
                old(self).lemma_view(q);
                lemma_chunk_key_roundtrip(q);
            }
            assert(self@ =~= old(self)@.remove(*p));
        }
        removed
    }
}


/// Key of an octree LOD node: node coordinates at a given LOD level.
#[derive(Clone, Copy, Debug, PartialEq, Eq, Structural)]
pub struct LodNodeKey {
    pub x: i32,
    pub y: i32,
    pub z: i32,
    pub lod_level: u8,
}

/// Unified mesh key for both chunk meshes and LOD node meshes.
#[derive(Clone, Copy, Debug, PartialEq, Eq, Structural)]
pub enum MeshKey {
    Chunk(ChunkPosition),
    LodNode(LodNodeKey),
}

/// 2^96: the size of the `xyz_key` range.
pub open spec fn xyz_range() -> int {
    word() * word() * word()
}

/// 2^104: tag that separates LOD node keys from chunk keys.
pub open spec fn lod_tag() -> int {
    xyz_range() * 256
}

/// Exact integer packing of a mesh key.
pub open spec fn mesh_key_code(k: MeshKey) -> int {
    match k {
        MeshKey::Chunk(p) => p.spec_key(),
        MeshKey::LodNode(n) => lod_tag() + n.lod_level * xyz_range() + xyz_key(n.x, n.y, n.z),
    }
}

/// Inverse of `mesh_key_code` on its range.
pub open spec fn decode_mesh_key(c: u128) -> MeshKey {
    if c >= lod_tag() {
        let r = c - lod_tag();
        let t = xyz_decode(r % xyz_range());
        MeshKey::LodNode(LodNodeKey { x: t.0, y: t.1, z: t.2, lod_level: (r / xyz_range()) as u8 })
    } else {
        MeshKey::Chunk(decode_chunk_key(c))
    }
}

pub proof fn lemma_mesh_key_roundtrip(k: MeshKey)
    ensures
        0 <= mesh_key_code(k) <= u128::MAX,
        decode_mesh_key(mesh_key_code(k) as u128) == k,
{
    assert(xyz_range() == 0x1_0000_0000_0000_0000_0000_0000);
    match k {
        MeshKey::Chunk(p) => {
            lemma_chunk_key_roundtrip(p);
        },
        MeshKey::LodNode(n) => {
            lemma_xyz_roundtrip(n.x, n.y, n.z);
            let r = n.lod_level * xyz_range() + xyz_key(n.x, n.y, n.z);
            lemma_fundamental_div_mod_converse(r, xyz_range(), n.lod_level as int, xyz_key(n.x, n.y, n.z));
            assert(n.lod_level * xyz_range() <= 255 * xyz_range()) by (nonlinear_arith)
                requires n.lod_level <= 255, xyz_range() > 0;
        },
    }
}

impl MeshKey {
    /// Packs the key into a single integer, injectively.
    pub fn code(&self) -> (c: u128)
        ensures
            c == mesh_key_code(*self),
    {
        proof {
            lemma_mesh_key_roundtrip(*self);
        }
        match self {
            MeshKey::Chunk(p) => p.key(),
            MeshKey::LodNode(n) => {
                let xyz = pack_xyz(n.x, n.y, n.z);
                proof {
                    lemma_xyz_roundtrip(n.x, n.y, n.z);
                }
                0x100_0000_0000_0000_0000_0000_0000u128
                    + (n.lod_level as u128) * 0x1_0000_0000_0000_0000_0000_0000u128 + xyz
            },
        }
    }
}

} // verus!
