//! Character rendering bookkeeping: which meshes of the local player are
//! drawn, the counts handed to the GPU, and how buffers grow.

use vstd::prelude::*;
use vstd::arithmetic::power2::{pow2, lemma_pow2_unfold, lemma_pow2_pos};

use crate::bvh::CharacterParams;

verus! {

/// Mesh visibility of the local player's third-person model.
#[derive(Debug, Clone)]
pub struct LocalPlayerMeshes {
    /// Whether head/torso should be hidden (first-person mode)
    pub hide_head: bool,
    /// Indices of meshes to hide in first-person mode
    pub hidden_mesh_indices: Vec<usize>,
}

impl LocalPlayerMeshes {
    /// Check if a mesh should be visible (considering first-person mode)
    pub fn is_mesh_visible(&self, mesh_index: usize) -> (b: bool)
        ensures
            b == (!self.hide_head || !self.hidden_mesh_indices@.contains(mesh_index)),
    {
        if !self.hide_head {
            return true;
        }
        let mut i: usize = 0;
        while i < self.hidden_mesh_indices.len()
            invariant
                i <= self.hidden_mesh_indices@.len(),
                self.hide_head,
                forall|j: int| 0 <= j < i ==> self.hidden_mesh_indices@[j] != mesh_index,
            decreases self.hidden_mesh_indices@.len() - i,
        {
            if self.hidden_mesh_indices[i] == mesh_index {
                assert(self.hidden_mesh_indices@[i as int] == mesh_index);
                return false;
            }
            i = i + 1;
        }
        true
    }
}

/// Parameters describing the character BVH uploaded to the GPU: the counts
/// (truncated to 32 bits) and whether any triangle is present.
pub fn character_params(node_count: usize, triangle_count: usize) -> (p: CharacterParams)
    ensures
        p.node_count == node_count as u32,
        p.triangle_count == triangle_count as u32,
        p.enabled == (if triangle_count == 0 { 0u32 } else { 1u32 }),
        p._padding == 0,
{
    CharacterParams {
        node_count: node_count as u32,
        triangle_count: triangle_count as u32,
        enabled: if triangle_count == 0 { 0 } else { 1 },
        _padding: 0,
    }
}

pub open spec fn is_power_of_two(n: int) -> bool {
    exists|e: nat| n == pow2(e)
}

/// Smallest power of two at least `n`.
pub fn next_power_of_two(n: usize) -> (p: usize)
    requires
        n <= usize::MAX / 2 + 1,
    ensures
        is_power_of_two(p as int),
        n <= p,
        p == 1 || p / 2 < n,
{
    let mut p: usize = 1;
    let ghost mut e: nat = 0;
    proof {
        reveal_with_fuel(vstd::arithmetic::power::pow, 1);
        assert(pow2(0) == 1) by {
            vstd::arithmetic::power2::lemma2_to64();
        }
    }
    while p < n
        invariant
            p == pow2(e),
            1 <= p,
            n <= usize::MAX / 2 + 1,
            p == 1 || p / 2 < n,
        decreases usize::MAX - p,
    {
        proof {
            lemma_pow2_unfold(e + 1);
        }
        p = p * 2;
        proof {
            e = e + 1;
        }
    }
    p
}

/// Capacity after making room for `needed` items: unchanged when they
/// fit, else the next power of two.
pub fn grown_capacity(current: usize, needed: usize) -> (c: usize)
    requires
        needed <= usize::MAX / 2 + 1,
    ensures
        needed <= current ==> c == current,
        needed > current ==> is_power_of_two(c as int) && needed <= c && (c == 1 || c / 2 < needed),
{
    if needed > current {
        next_power_of_two(needed)
    } else {
        current
    }
}

/// Texture and material ids of a mesh for the GPU; a missing one is 0.
pub fn mesh_gpu_ids(texture_index: Option<usize>, material_index: Option<usize>) -> (ids: (u32, u32))
    ensures
        ids.0 == (match texture_index { Some(t) => t as u32, None => 0u32 }),
        ids.1 == (match material_index { Some(m) => m as u32, None => 0u32 }),
{
    let t: usize = match texture_index {
        Some(t) => t,
        None => 0,
    };
    let m: usize = match material_index {
        Some(m) => m,
        None => 0,
    };
    (t as u32, m as u32)
}

} // verus!
