use voxel_engine::model::{
    clip_looping, convert_to_rgba, create_skeleton_from_nodes, joint_index_or_root, looping_from_field, mesh_display_name, texture_from_image,
    total_triangles, Joint, LoopField, PixelFormat, PolygonMesh, Skeleton, TextureFormat,
};

#[test]
fn grey_and_grey_alpha_expand_to_rgba() {
    assert_eq!(convert_to_rgba(PixelFormat::R8, &vec![10, 20]), vec![10, 10, 10, 255, 20, 20, 20, 255]);
    assert_eq!(convert_to_rgba(PixelFormat::R8G8, &vec![10, 1, 20, 2]), vec![10, 10, 10, 1, 20, 20, 20, 2]);
    assert_eq!(convert_to_rgba(PixelFormat::R8G8, &vec![10, 1, 20]), vec![10, 10, 10, 1, 20, 20, 20, 255]);
    assert_eq!(convert_to_rgba(PixelFormat::R8G8B8, &vec![1, 2, 3, 4, 5, 6]), vec![1, 2, 3, 255, 4, 5, 6, 255]);
    assert_eq!(convert_to_rgba(PixelFormat::R16, &vec![9, 8]), vec![9, 8]);
    assert!(convert_to_rgba(PixelFormat::R8, &vec![]).is_empty());
}

#[test]
fn textures_keep_rgb_and_rgba() {
    let t = texture_from_image(PixelFormat::R8G8B8, 1, 1, vec![1, 2, 3]);
    assert_eq!(t.format, TextureFormat::Rgb8);
    assert_eq!(t.data, vec![1, 2, 3]);
    let t = texture_from_image(PixelFormat::R8G8B8A8, 1, 1, vec![1, 2, 3, 4]);
    assert_eq!(t.format, TextureFormat::Rgba8);
    let t = texture_from_image(PixelFormat::R8, 2, 1, vec![7, 8]);
    assert_eq!(t.format, TextureFormat::Rgba8);
    assert_eq!(t.data, vec![7, 7, 7, 255, 8, 8, 8, 255]);
    assert_eq!((t.width, t.height), (2, 1));
}

#[test]
fn skeleton_hierarchy() {
    let mut s = Skeleton::new();
    assert_eq!(s.add_joint(Joint::new("root".to_string(), None)), 0);
    assert_eq!(s.add_joint(Joint::new("arm".to_string(), Some(0))), 1);
    assert_eq!(s.add_joint(Joint::new("hand".to_string(), Some(1))), 2);
    assert_eq!(s.add_joint(Joint::new("leg".to_string(), Some(0))), 3);
    assert_eq!(s.add_joint(Joint::new("prop".to_string(), None)), 4);
    assert_eq!(s.root_joints, vec![0, 4]);
    assert_eq!(s.joints[0].children, vec![1, 3]);
    assert_eq!(s.joints[1].children, vec![2]);
    assert_eq!(s.find_joint("hand"), Some(2));
    assert_eq!(s.find_joint("tail"), None);
    assert_eq!(joint_index_or_root(&s, "leg"), 3);
    assert_eq!(joint_index_or_root(&s, "tail"), 0);
}

#[test]
fn triangles_of_meshes() {
    let mut m: PolygonMesh<u8> = PolygonMesh::new("mesh_0".to_string());
    m.vertices = vec![0; 7];
    assert_eq!(m.triangle_count(), 2);
    assert_eq!(m.triangle_indices(), vec![(0, 1, 2), (3, 4, 5)]);
    let mut n: PolygonMesh<u8> = PolygonMesh::new("b".to_string());
    n.vertices = vec![0; 4];
    n.indices = Some(vec![0, 1, 2, 2, 3, 0, 1]);
    assert_eq!(n.triangle_count(), 2);
    assert_eq!(n.triangle_indices(), vec![(0, 1, 2), (2, 3, 0)]);
    assert_eq!(total_triangles(&vec![m, n]), 4);
}

#[test]
fn clip_looping_reads_extras() {
    assert!(!clip_looping(Some("{\"loop\": false}"), true));
    assert!(clip_looping(Some("{\"loop\": true}"), false));
    assert!(clip_looping(Some("{\"loop\": \"loop\"}"), false));
    assert!(clip_looping(Some("{\"loop\": \"true\"}"), false));
    assert!(!clip_looping(Some("{\"loop\": \"once\"}"), true));
    assert!(clip_looping(Some("{\"loop\": 3}"), true));
    assert!(!clip_looping(Some("{\"other\": 1}"), false));
    assert!(clip_looping(Some("not json"), true));
    assert!(clip_looping(None, true));
    assert!(!looping_from_field(&LoopField::Text("hold".to_string()), true));
    assert!(looping_from_field(&LoopField::Missing, true));
}

#[test]
fn mesh_names_prefer_node_names() {
    assert_eq!(mesh_display_name("mesh_3".to_string(), "arm"), "arm");
    assert_eq!(mesh_display_name("mesh_3".to_string(), ""), "mesh_3");
    assert_eq!(mesh_display_name("body".to_string(), "arm"), "body");
    assert_eq!(mesh_display_name("mesh".to_string(), "arm"), "mesh");
}

#[test]
fn skeleton_from_node_tree_is_preorder() {
    let names: Vec<String> = ["hand", "arm", "body", "head", "extra"].iter().map(|s| s.to_string()).collect();
    let children: Vec<Vec<usize>> = vec![vec![], vec![0], vec![3, 1], vec![], vec![]];
    let (s, joint_nodes) = create_skeleton_from_nodes(&names, &children);
    assert_eq!(joint_nodes, vec![2, 3, 1, 0, 4]);
    let joint_names: Vec<&str> = s.joints.iter().map(|j| j.name.as_str()).collect();
    assert_eq!(joint_names, vec!["body", "head", "arm", "hand", "extra"]);
    let parents: Vec<Option<usize>> = s.joints.iter().map(|j| j.parent_index).collect();
    assert_eq!(parents, vec![None, Some(0), Some(0), Some(2), None]);
    assert_eq!(s.root_joints, vec![0, 4]);
    assert_eq!(s.joints[0].children, vec![1, 2]);
    assert_eq!(s.joints[2].children, vec![3]);
}

#[test]
fn skeleton_from_empty_node_table() {
    let (s, joint_nodes) = create_skeleton_from_nodes(&vec![], &vec![]);
    assert!(s.joints.is_empty());
    assert!(joint_nodes.is_empty());
}

#[test]
fn forest_nodes_each_become_one_joint() {
    // Two trees listed out of order, with a deep chain: 6 -> 0 -> 5 -> 2, 6 -> 3; 1 -> 4.
    let names: Vec<String> = (0..7).map(|i| format!("n{}", i)).collect();
    let children: Vec<Vec<usize>> = vec![vec![5], vec![4], vec![], vec![], vec![], vec![2], vec![0, 3]];
    let (s, joint_nodes) = create_skeleton_from_nodes(&names, &children);
    assert_eq!(joint_nodes, vec![1, 4, 6, 0, 5, 2, 3]);
    let mut sorted = joint_nodes.clone();
    sorted.sort();
    assert_eq!(sorted, (0..7).collect::<Vec<usize>>());
    assert_eq!(s.joints.len(), 7);
    for (j, joint) in s.joints.iter().enumerate() {
        if let Some(p) = joint.parent_index {
            assert!(p < j);
        }
    }
}
