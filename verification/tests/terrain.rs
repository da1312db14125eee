use voxel_engine::chunk::LodNodeKey;
use voxel_engine::terrain::{generate_lod_data, hash_bits, lod_material, lod_sample_columns, surface_band, Band};

fn reference_hash(x: i32, z: i32) -> u32 {
    let n = (x.wrapping_mul(374761393) as u32).wrapping_add(z.wrapping_mul(668265263) as u32);
    let n = (n ^ (n >> 13)).wrapping_mul(1274126177);
    let n = n ^ (n >> 16);
    n & 0x7FFF_FFFF
}

#[test]
fn hash_matches_the_mixing_formula() {
    for &(x, z) in &[(0, 0), (1, 0), (0, 1), (-5, 7), (i32::MAX, i32::MIN), (123456, -654321)] {
        assert_eq!(hash_bits(x, z), reference_hash(x, z));
    }
    assert_eq!(hash_bits(0, 0), 0);
    assert!(hash_bits(1, 0) <= 0x7FFF_FFFF);
}

#[test]
fn bands_below_the_surface() {
    assert_eq!(surface_band(800, 2), Band::Snow);
    assert_eq!(surface_band(800, 3), Band::Dirt);
    assert_eq!(surface_band(600, 1), Band::MountainRock);
    assert_eq!(surface_band(100, 1), Band::Grass);
    assert_eq!(surface_band(100, 5), Band::Dirt);
    assert_eq!(surface_band(100, 20), Band::ShallowRock);
    assert_eq!(surface_band(100, 21), Band::Bedrock);
    assert_eq!(lod_material(800, 1), 15);
    assert_eq!(lod_material(100, 1), 49);
    assert_eq!(lod_material(100, 4), 33);
    assert_eq!(lod_material(100, 10), 42);
    assert_eq!(lod_material(100, 30), 44);
}

#[test]
fn lod_sample_columns_are_cell_centers() {
    let key = LodNodeKey { x: 1, y: 0, z: -1, lod_level: 1 };
    let cols = lod_sample_columns(&key);
    assert_eq!(cols.len(), 1024);
    assert_eq!(cols[0], (65, -63));
    assert_eq!(cols[1], (65, -61));
    assert_eq!(cols[32], (67, -63));
}

#[test]
fn lod_grid_from_heights() {
    let key = LodNodeKey { x: 0, y: 0, z: 0, lod_level: 0 };
    let heights = vec![3i32; 1024];
    let grid = generate_lod_data(&key, &heights).expect("solid node");
    assert_eq!(grid.len(), 32768);
    // cell (0, ly, 0) sits at wy = ly; surface at 3
    assert_eq!(grid[0], 33);
    assert_eq!(grid[32], 33);
    assert_eq!(grid[64], 49);
    assert_eq!(grid[96], 0);
    assert_eq!(grid[(5 * 32 + 2) * 32 + 7], 49);
}

#[test]
fn lod_node_all_air() {
    let low = vec![0i32; 1024];
    assert!(generate_lod_data(&LodNodeKey { x: 0, y: 0, z: 0, lod_level: 0 }, &low).is_none());
    let high = vec![2000i32; 1024];
    assert!(generate_lod_data(&LodNodeKey { x: 0, y: 1, z: 0, lod_level: 5 }, &high).is_none());
    assert!(generate_lod_data(&LodNodeKey { x: 0, y: 0, z: 0, lod_level: 5 }, &high).is_some());
}
