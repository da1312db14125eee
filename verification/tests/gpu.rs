use voxel_engine::bvh::{
    denoise_passes, flatten_to_gpu, flatten_to_gpu_with_indices, partition, split_point, BvhNode, CharacterParams, FlatNode,
    LEAF_FLAG,
};
use voxel_engine::character::{character_params, grown_capacity, mesh_gpu_ids, next_power_of_two, LocalPlayerMeshes};

fn sample_tree() -> BvhNode<u8> {
    BvhNode::Interior {
        bounds: 0,
        left: Box::new(BvhNode::Leaf { bounds: 1, first_triangle: 4, triangle_count: 2 }),
        right: Box::new(BvhNode::Interior {
            bounds: 2,
            left: Box::new(BvhNode::Leaf { bounds: 3, first_triangle: 0, triangle_count: 1 }),
            right: Box::new(BvhNode::Leaf { bounds: 4, first_triangle: 1, triangle_count: 3 }),
        }),
    }
}

#[test]
fn flatten_lays_nodes_out_depth_first() {
    let mut nodes: Vec<FlatNode<u8>> = Vec::new();
    let mut order = Vec::new();
    let root = flatten_to_gpu(&sample_tree(), &mut nodes, &mut order);
    assert_eq!(root, 0);
    assert_eq!(nodes.len(), 5);
    assert_eq!((nodes[0].left_or_first, nodes[0].right_or_count), (1, 2));
    assert_eq!((nodes[1].left_or_first, nodes[1].right_or_count), (0, 2 | LEAF_FLAG));
    assert_eq!((nodes[2].left_or_first, nodes[2].right_or_count), (3, 4));
    assert_eq!((nodes[3].left_or_first, nodes[3].right_or_count), (2, 1 | LEAF_FLAG));
    assert_eq!((nodes[4].left_or_first, nodes[4].right_or_count), (3, 3 | LEAF_FLAG));
    assert_eq!(order, vec![4, 5, 0, 1, 2, 3]);
    assert_eq!(nodes[2].bounds, 2);
}

#[test]
fn flatten_with_indices_maps_triangles() {
    let mut nodes: Vec<FlatNode<u8>> = Vec::new();
    let mut order = Vec::new();
    let indices = vec![10, 11, 12, 13, 14, 15];
    flatten_to_gpu_with_indices(&sample_tree(), &mut nodes, &mut order, &indices);
    assert_eq!(order, vec![14, 15, 10, 11, 12, 13]);
    assert_eq!(nodes.len(), 5);
}

#[test]
fn leaf_flag_and_count() {
    let n = FlatNode::leaf((), 7, 5);
    assert_eq!(n.right_or_count & LEAF_FLAG, LEAF_FLAG);
    assert_eq!(n.right_or_count & 0x7FFF_FFFF, 5);
    let i = FlatNode::interior((), 1, 2);
    assert_eq!(i.right_or_count & LEAF_FLAG, 0);
}

#[test]
fn denoise_steps() {
    let p = denoise_passes(640, 480);
    assert_eq!([p[0].step_size, p[1].step_size, p[2].step_size], [1, 2, 4]);
    assert!(p.iter().all(|d| d.screen_width == 640 && d.screen_height == 480 && d._padding == 0));
}

#[test]
fn character_gpu_params() {
    assert_eq!(CharacterParams::default(), CharacterParams { node_count: 0, triangle_count: 0, enabled: 0, _padding: 0 });
    let p = character_params(5, 0);
    assert_eq!((p.node_count, p.triangle_count, p.enabled), (5, 0, 0));
    let p = character_params(9, 12);
    assert_eq!(p.enabled, 1);
    assert_eq!(mesh_gpu_ids(Some(3), None), (3, 0));
}

#[test]
fn buffer_capacity_grows_to_powers_of_two() {
    assert_eq!(next_power_of_two(0), 1);
    assert_eq!(next_power_of_two(1), 1);
    assert_eq!(next_power_of_two(5), 8);
    assert_eq!(next_power_of_two(1024), 1024);
    assert_eq!(grown_capacity(16, 10), 16);
    assert_eq!(grown_capacity(16, 17), 32);
    assert_eq!(grown_capacity(0, 100), 128);
}

#[test]
fn local_player_mesh_visibility() {
    let m = LocalPlayerMeshes { hide_head: true, hidden_mesh_indices: vec![0, 3] };
    assert!(!m.is_mesh_visible(3));
    assert!(m.is_mesh_visible(1));
    let shown = LocalPlayerMeshes { hide_head: false, hidden_mesh_indices: vec![0, 3] };
    assert!(shown.is_mesh_visible(3));
}

#[test]
fn partition_puts_left_triangles_first() {
    let mut indices: Vec<usize> = vec![9, 3, 0, 7, 4, 1, 8, 2, 6, 5];
    let goes_left: Vec<bool> = (0..10).map(|i| i % 3 == 0).collect();
    // Only positions 2..9 take part: 0, 7, 4, 1, 8, 2, 6.
    let mid = partition(&mut indices, 2, 9, &goes_left);
    assert!(2 <= mid && mid < 9);
    assert_eq!(indices[0], 9);
    assert_eq!(indices[1], 3);
    assert_eq!(indices[9], 5);
    for &i in &indices[2..mid] {
        assert!(goes_left[i]);
    }
    for &i in &indices[mid + 1..9] {
        assert!(!goes_left[i]);
    }
    let mut range: Vec<usize> = indices[2..9].to_vec();
    range.sort();
    assert_eq!(range, vec![0, 1, 2, 4, 6, 7, 8]);
    // Two of the range go left (0 and 6): the split lands after them.
    assert_eq!(mid, 4);
}

#[test]
fn split_point_falls_back_to_the_middle() {
    assert_eq!(split_point(0, 0, 9), 4);
    assert_eq!(split_point(9, 0, 9), 4);
    assert_eq!(split_point(6, 2, 12), 6);
    assert_eq!(split_point(2, 2, 12), 7);
}
