//! Bounding volume hierarchies: the flat node layout handed to the GPU and
//! the uniform parameter blocks that describe it.

use vstd::prelude::*;

verus! {

/// Character parameters for the GPU
#[derive(Debug, Clone, Copy, PartialEq, Eq, Structural)]
pub struct CharacterParams {
    /// Number of BVH nodes
    pub node_count: u32,
    /// Number of triangles
    pub triangle_count: u32,
    /// Whether characters are enabled
    pub enabled: u32,
    pub _padding: u32,
}

impl Default for CharacterParams {
    fn default() -> (r: Self)
        ensures
            r == (CharacterParams { node_count: 0, triangle_count: 0, enabled: 0, _padding: 0 }),
    {
        CharacterParams { node_count: 0, triangle_count: 0, enabled: 0, _padding: 0 }
    }
}

/// Denoise parameters uniform
#[derive(Debug, Clone, Copy, PartialEq, Eq, Structural)]
pub struct DenoiseParams {
    pub screen_width: u32,
    pub screen_height: u32,
    pub step_size: u32,
    pub _padding: u32,
}

/// Parameters of the three denoise passes for a screen size: step sizes
/// 1, 2 and 4.
pub fn denoise_passes(width: u32, height: u32) -> (p: [DenoiseParams; 3])
    ensures
        forall|i: int| 0 <= i < 3 ==> (#[trigger] p@[i]).screen_width == width && p@[i].screen_height == height
            && p@[i]._padding == 0,
        p@[0].step_size == 1,
        p@[1].step_size == 2,
        p@[2].step_size == 4,
{
    let step_sizes: [u32; 3] = [1, 2, 4];
    [
        DenoiseParams { screen_width: width, screen_height: height, step_size: step_sizes[0], _padding: 0 },
        DenoiseParams { screen_width: width, screen_height: height, step_size: step_sizes[1], _padding: 0 },
        DenoiseParams { screen_width: width, screen_height: height, step_size: step_sizes[2], _padding: 0 },
    ]
}

/// Leaf flag (highest bit of `right_or_count`)
pub const LEAF_FLAG: u32 = 0x8000_0000;

/// BVH node with bounds of type `B`
#[derive(Debug)]
pub enum BvhNode<B> {
    /// Interior node with two children
    Interior { bounds: B, left: Box<BvhNode<B>>, right: Box<BvhNode<B>> },
    /// Leaf node covering a run of triangles
    Leaf { bounds: B, first_triangle: u32, triangle_count: u32 },
}

/// Flat BVH node. A leaf has `LEAF_FLAG` set in `right_or_count`, its first
/// triangle in `left_or_first` and its triangle count in the low bits; an
/// interior node holds the indices of its two children.
#[derive(Debug, Clone, Copy)]
pub struct FlatNode<B> {
    pub bounds: B,
    pub left_or_first: u32,
    pub right_or_count: u32,
}

impl<B> FlatNode<B> {
    /// Create an interior node
    pub fn interior(bounds: B, left_child: u32, right_child: u32) -> (n: Self)
        ensures
            n == (FlatNode { bounds, left_or_first: left_child, right_or_count: right_child }),
    {
        FlatNode { bounds, left_or_first: left_child, right_or_count: right_child }
    }

    /// Create a leaf node
    pub fn leaf(bounds: B, first_triangle: u32, triangle_count: u32) -> (n: Self)
        ensures
            n == (FlatNode { bounds, left_or_first: first_triangle, right_or_count: triangle_count | LEAF_FLAG }),
            n.right_or_count & LEAF_FLAG != 0,
            triangle_count < LEAF_FLAG ==> n.right_or_count & 0x7FFF_FFFFu32 == triangle_count,
    {
        let r = triangle_count | LEAF_FLAG;
        assert(r & LEAF_FLAG != 0) by (bit_vector)
            requires r == triangle_count | 0x8000_0000u32;
        assert(triangle_count < LEAF_FLAG ==> r & 0x7FFF_FFFFu32 == triangle_count) by (bit_vector)
            requires r == triangle_count | 0x8000_0000u32;
        FlatNode { bounds, left_or_first: first_triangle, right_or_count: r }
    }
}

/// Number of nodes of a tree.
pub open spec fn node_count<B>(t: BvhNode<B>) -> nat
    decreases t,
{
    match t {
        BvhNode::Leaf { .. } => 1,
        BvhNode::Interior { left, right, .. } => 1 + node_count(*left) + node_count(*right),
    }
}

/// Number of triangle references of a tree's leaves.
pub open spec fn tri_count<B>(t: BvhNode<B>) -> nat
    decreases t,
{
    match t {
        BvhNode::Leaf { triangle_count, .. } => triangle_count as nat,
        BvhNode::Interior { left, right, .. } => tri_count(*left) + tri_count(*right),
    }
}

/// Every leaf's run of triangles stays below `u32::MAX`.
pub open spec fn runs_in_range<B>(t: BvhNode<B>) -> bool
    decreases t,
{
    match t {
        BvhNode::Leaf { first_triangle, triangle_count, .. } => first_triangle + triangle_count <= u32::MAX,
        BvhNode::Interior { left, right, .. } => runs_in_range(*left) && runs_in_range(*right),
    }
}

/// Depth-first flat layout of a tree whose root lands at index `base` and
/// whose first triangle lands at position `tbase`: the nodes in pre-order
/// and the triangle indices in leaf order.
pub open spec fn flatten_spec<B>(t: BvhNode<B>, base: nat, tbase: nat) -> (Seq<FlatNode<B>>, Seq<usize>)
    decreases t,
{
    match t {
        BvhNode::Leaf { bounds, first_triangle, triangle_count } => (
            seq![FlatNode { bounds, left_or_first: tbase as u32, right_or_count: triangle_count | LEAF_FLAG }],
            Seq::new(triangle_count as nat, |i: int| (first_triangle + i) as usize),
        ),
        BvhNode::Interior { bounds, left, right } => {
            let (ln, lt) = flatten_spec(*left, base + 1, tbase);
            let (rn, rt) = flatten_spec(*right, base + 1 + ln.len(), tbase + lt.len());
            (
                seq![FlatNode { bounds, left_or_first: (base + 1) as u32, right_or_count: (base + 1 + ln.len()) as u32 }] + ln + rn,
                lt + rt,
            )
        },
    }
}

/// The flat layout has one node per tree node and one entry per triangle
/// reference of the leaves.
pub proof fn lemma_flatten_lengths<B>(t: BvhNode<B>, base: nat, tbase: nat)
    ensures
        flatten_spec(t, base, tbase).0.len() == node_count(t),
        flatten_spec(t, base, tbase).1.len() == tri_count(t),
    decreases t,
{
    match t {
        BvhNode::Leaf { .. } => {},
        BvhNode::Interior { left, right, .. } => {
            lemma_flatten_lengths(*left, base + 1, tbase);
            let (ln, lt) = flatten_spec(*left, base + 1, tbase);
            lemma_flatten_lengths(*right, base + 1 + ln.len(), tbase + lt.len());
        },
    }
}

/// Append the flat layout of `node` to `nodes` and its triangle order to
/// `order`; returns the index of `node`'s flat node.
pub fn flatten_to_gpu<B: Copy>(node: &BvhNode<B>, nodes: &mut Vec<FlatNode<B>>, order: &mut Vec<usize>) -> (index: u32)
    requires
        old(nodes)@.len() + node_count(*node) <= u32::MAX,
        old(order)@.len() + tri_count(*node) <= u32::MAX,
        runs_in_range(*node),
    ensures
        index == old(nodes)@.len(),
        final(nodes)@ == old(nodes)@ + flatten_spec(*node, old(nodes)@.len(), old(order)@.len()).0,
        final(order)@ == old(order)@ + flatten_spec(*node, old(nodes)@.len(), old(order)@.len()).1,
    decreases node,
{
    proof {
        lemma_flatten_lengths(*node, old(nodes)@.len(), old(order)@.len());
    }
    let node_index = nodes.len() as u32;
    match node {
        BvhNode::Leaf { bounds, first_triangle, triangle_count } => {
            let first_gpu_tri = order.len() as u32;
            let mut i: u32 = 0;
            while i < *triangle_count
                invariant
                    i <= *triangle_count,
                    *first_triangle + *triangle_count <= u32::MAX,
                    order@ == old(order)@ + Seq::new(i as nat, |k: int| (*first_triangle + k) as usize),
                decreases *triangle_count - i,
            {
                order.push((*first_triangle + i) as usize);
                assert(order@ =~= old(order)@ + Seq::new((i + 1) as nat, |k: int| (*first_triangle + k) as usize));
                i = i + 1;
            }
            nodes.push(FlatNode::leaf(*bounds, first_gpu_tri, *triangle_count));
            assert(nodes@ =~= old(nodes)@ + flatten_spec(*node, old(nodes)@.len(), old(order)@.len()).0);
        },
        BvhNode::Interior { bounds, left, right } => {
            nodes.push(FlatNode::interior(*bounds, 0, 0));
            let ghost n1 = nodes@;
            let ghost o1 = order@;
            proof {
                lemma_flatten_lengths(**left, n1.len(), o1.len());
            }
            let left_index = flatten_to_gpu(left, nodes, order);
            let ghost n2 = nodes@;
            let ghost o2 = order@;
            proof {
                lemma_flatten_lengths(**right, n2.len(), o2.len());
            }
            let right_index = flatten_to_gpu(right, nodes, order);
            nodes.set(node_index as usize, FlatNode::interior(*bounds, left_index, right_index));
            proof {
                let (ln, lt) = flatten_spec(**left, old(nodes)@.len() + 1, old(order)@.len());
                let (rn, rt) = flatten_spec(**right, old(nodes)@.len() + 1 + ln.len(), old(order)@.len() + lt.len());
                assert(n1.len() == old(nodes)@.len() + 1);
                assert(n2 == n1 + ln);
                assert(nodes@ =~= old(nodes)@ + flatten_spec(*node, old(nodes)@.len(), old(order)@.len()).0);
                assert(order@ =~= old(order)@ + flatten_spec(*node, old(nodes)@.len(), old(order)@.len()).1);
            }
        },
    }
    node_index
}


/// Every leaf's run of triangles lies inside `indices`.
pub open spec fn runs_within<B>(t: BvhNode<B>, len: nat) -> bool
    decreases t,
{
    match t {
        BvhNode::Leaf { first_triangle, triangle_count, .. } => first_triangle + triangle_count <= len,
        BvhNode::Interior { left, right, .. } => runs_within(*left, len) && runs_within(*right, len),
    }
}

/// Like `flatten_spec`, with each leaf's triangles looked up in `indices`.
pub open spec fn flatten_indexed_spec<B>(t: BvhNode<B>, base: nat, tbase: nat, indices: Seq<usize>)
    -> (Seq<FlatNode<B>>, Seq<usize>)
    decreases t,
{
    match t {
        BvhNode::Leaf { bounds, first_triangle, triangle_count } => (
            seq![FlatNode { bounds, left_or_first: tbase as u32, right_or_count: triangle_count | LEAF_FLAG }],
            Seq::new(triangle_count as nat, |i: int| indices[first_triangle + i]),
        ),
        BvhNode::Interior { bounds, left, right } => {
            let (ln, lt) = flatten_indexed_spec(*left, base + 1, tbase, indices);
            let (rn, rt) = flatten_indexed_spec(*right, base + 1 + ln.len(), tbase + lt.len(), indices);
            (
                seq![FlatNode { bounds, left_or_first: (base + 1) as u32, right_or_count: (base + 1 + ln.len()) as u32 }] + ln + rn,
                lt + rt,
            )
        },
    }
}

/// The indexed flat layout has one node per tree node and one entry per
/// triangle reference of the leaves.
pub proof fn lemma_flatten_indexed_lengths<B>(t: BvhNode<B>, base: nat, tbase: nat, indices: Seq<usize>)
    ensures
        flatten_indexed_spec(t, base, tbase, indices).0.len() == node_count(t),
        flatten_indexed_spec(t, base, tbase, indices).1.len() == tri_count(t),
    decreases t,
{
    match t {
        BvhNode::Leaf { .. } => {},
        BvhNode::Interior { left, right, .. } => {
            lemma_flatten_indexed_lengths(*left, base + 1, tbase, indices);
            let (ln, lt) = flatten_indexed_spec(*left, base + 1, tbase, indices);
            lemma_flatten_indexed_lengths(*right, base + 1 + ln.len(), tbase + lt.len(), indices);
        },
    }
}

/// Like `flatten_to_gpu`, where a leaf's triangles are positions in the
/// reordered `indices` the builder produced.
pub fn flatten_to_gpu_with_indices<B: Copy>(
    node: &BvhNode<B>,
    nodes: &mut Vec<FlatNode<B>>,
    order: &mut Vec<usize>,
    indices: &Vec<usize>,
) -> (index: u32)
    requires
        old(nodes)@.len() + node_count(*node) <= u32::MAX,
        old(order)@.len() + tri_count(*node) <= u32::MAX,
        runs_within(*node, indices@.len()),
    ensures
        index == old(nodes)@.len(),
        final(nodes)@ == old(nodes)@ + flatten_indexed_spec(*node, old(nodes)@.len(), old(order)@.len(), indices@).0,
        final(order)@ == old(order)@ + flatten_indexed_spec(*node, old(nodes)@.len(), old(order)@.len(), indices@).1,
    decreases node,
{
    proof {
        lemma_flatten_indexed_lengths(*node, old(nodes)@.len(), old(order)@.len(), indices@);
    }
    let node_index = nodes.len() as u32;
    match node {
        BvhNode::Leaf { bounds, first_triangle, triangle_count } => {
            let first_gpu_tri = order.len() as u32;
            let start = *first_triangle as usize;
            let count = *triangle_count as usize;
            let ilen = indices.len();
            let mut i: usize = 0;
            while i < count
                invariant
                    i <= count,
                    count == *triangle_count,
                    start == *first_triangle,
                    start + count <= indices@.len(),
                    ilen == indices@.len(),
                    order@ == old(order)@ + Seq::new(i as nat, |k: int| indices@[start + k]),
                decreases count - i,
            {
                order.push(indices[start + i]);
                assert(order@ =~= old(order)@ + Seq::new((i + 1) as nat, |k: int| indices@[start + k]));
                i = i + 1;
            }
            nodes.push(FlatNode::leaf(*bounds, first_gpu_tri, *triangle_count));
            assert(order@ =~= old(order)@ + flatten_indexed_spec(*node, old(nodes)@.len(), old(order)@.len(), indices@).1);
            assert(nodes@ =~= old(nodes)@ + flatten_indexed_spec(*node, old(nodes)@.len(), old(order)@.len(), indices@).0);
        },
        BvhNode::Interior { bounds, left, right } => {
            nodes.push(FlatNode::interior(*bounds, 0, 0));
            let ghost n1 = nodes@;
            let ghost o1 = order@;
            proof {
                lemma_flatten_indexed_lengths(**left, n1.len(), o1.len(), indices@);
            }
            let left_index = flatten_to_gpu_with_indices(left, nodes, order, indices);
            let ghost n2 = nodes@;
            let ghost o2 = order@;
            proof {
                lemma_flatten_indexed_lengths(**right, n2.len(), o2.len(), indices@);
            }
            let right_index = flatten_to_gpu_with_indices(right, nodes, order, indices);
            nodes.set(node_index as usize, FlatNode::interior(*bounds, left_index, right_index));
            proof {
                let (ln, lt) = flatten_indexed_spec(**left, old(nodes)@.len() + 1, old(order)@.len(), indices@);
                assert(n1.len() == old(nodes)@.len() + 1);
                assert(n2 == n1 + ln);
                assert(nodes@ =~= old(nodes)@ + flatten_indexed_spec(*node, old(nodes)@.len(), old(order)@.len(), indices@).0);
                assert(order@ =~= old(order)@ + flatten_indexed_spec(*node, old(nodes)@.len(), old(order)@.len(), indices@).1);
            }
        },
    }
    node_index
}


/// Most triangles a leaf holds.
pub const MAX_LEAF_SIZE: usize = 4;

/// Reorders `indices[start..end]` so that the triangles that go left
/// (`goes_left`, by triangle index) come first: everything before the
/// returned position goes left, everything after it goes right, and the
/// entry at it goes either way. Only that range changes, and only in order.
pub fn partition(indices: &mut Vec<usize>, start: usize, end: usize, goes_left: &Vec<bool>) -> (mid: usize)
    requires
        start < end <= old(indices)@.len(),
        forall|i: int| start <= i < end ==> #[trigger] old(indices)@[i] < goes_left@.len(),
    ensures
        start <= mid < end,
        final(indices)@.len() == old(indices)@.len(),
        final(indices)@.to_multiset() == old(indices)@.to_multiset(),
        forall|i: int| 0 <= i < old(indices)@.len() && !(start <= i < end) ==> #[trigger] final(indices)@[i] == old(indices)@[i],
        forall|i: int| start <= i < end ==> #[trigger] final(indices)@[i] < goes_left@.len(),
        forall|i: int| start <= i < mid ==> goes_left@[#[trigger] final(indices)@[i] as int],
        forall|i: int| mid < i < end ==> !goes_left@[#[trigger] final(indices)@[i] as int],
{
    broadcast use vstd::seq_lib::group_to_multiset_ensures, vstd::multiset::group_multiset_axioms;
    let mut left = start;
    let mut right = end - 1;
    while left < right
        invariant
            start <= left <= right < end,
            end <= indices@.len(),
            indices@.len() == old(indices)@.len(),
            indices@.to_multiset() == old(indices)@.to_multiset(),
            forall|i: int| 0 <= i < old(indices)@.len() && !(start <= i < end) ==> #[trigger] indices@[i] == old(indices)@[i],
            forall|i: int| start <= i < end ==> #[trigger] indices@[i] < goes_left@.len(),
            forall|i: int| start <= i < left ==> goes_left@[#[trigger] indices@[i] as int],
            forall|i: int| right < i < end ==> !goes_left@[#[trigger] indices@[i] as int],
        decreases 2 * (right - left) + if left < right && !goes_left@[indices@[left as int] as int] { 1int } else { 0int },
    {
        let ghost l0 = left;
        let ghost r0 = right;
        let ghost moved = !goes_left@[indices@[left as int] as int];
        while left < right && goes_left[indices[left]]
            invariant
                start <= l0 <= left <= right,
                right == r0,
                r0 < end,
                end <= indices@.len(),
                forall|i: int| start <= i < end ==> #[trigger] indices@[i] < goes_left@.len(),
                forall|i: int| start <= i < left ==> goes_left@[#[trigger] indices@[i] as int],
                l0 < r0,
                moved == !goes_left@[indices@[l0 as int] as int],
            decreases right - left,
        {
            left = left + 1;
        }
        assert(!moved ==> left > l0);
        while left < right && !goes_left[indices[right]]
            invariant
                start <= l0 <= left <= right <= r0,
                r0 < end,
                end <= indices@.len(),
                forall|i: int| start <= i < end ==> #[trigger] indices@[i] < goes_left@.len(),
                forall|i: int| right < i < end ==> !goes_left@[#[trigger] indices@[i] as int],
                left < right ==> !goes_left@[indices@[left as int] as int],
                !moved ==> left > l0,
            decreases right - left,
        {
            right = right - 1;
        }
        if left < right {
            let a = indices[left];
            let b = indices[right];
            let ghost before = indices@;
            indices.set(left, b);
            let ghost s1 = indices@;
            indices.set(right, a);
            proof {
                assert(s1 == before.update(left as int, b));
                assert(indices@ == s1.update(right as int, a));
                vstd::seq_lib::to_multiset_update(before, left as int, b);
                vstd::seq_lib::to_multiset_update(s1, right as int, a);
                assert(s1[right as int] == b);
                assert(before.to_multiset().count(a) > 0) by {
                    vstd::seq_lib::to_multiset_contains(before, a);
                    assert(before[left as int] == a);
                }
                assert(indices@.to_multiset() =~= before.to_multiset());
            }
        }
    }
    left
}

/// Where a range of `count = end - start` triangles splits: at the
/// partition point, or in the middle when the partition left one side
/// empty.
pub fn split_point(mid: usize, start: usize, end: usize) -> (m: usize)
    requires
        start <= end,
    ensures
        m == if mid == start || mid == end { start + (end - start) / 2 } else { mid as int },
{
    if mid == start || mid == end {
        start + (end - start) / 2
    } else {
        mid
    }
}

} // verus!
