use voxel_engine::brush::{get_brush_positions, get_punch_positions_2x2};
use voxel_engine::chunk::ChunkPosition;
use voxel_engine::collision::{solid_voxels_in_box, CollisionWorld};
use voxel_engine::ui_state::BrushShape;
use voxel_engine::voxel_edit::{break_batch, edited_chunks, place_batch, AIR, DEFAULT_PLACE_COLOR};

struct Ground;

impl CollisionWorld for Ground {
    fn is_solid(&self, _x: i32, y: i32, _z: i32) -> bool {
        y <= 0
    }

    fn solid(&self, x: i32, y: i32, z: i32) -> bool {
        self.is_solid(x, y, z)
    }
}

#[test]
fn brush_single_sphere_cube() {
    assert_eq!(get_brush_positions(BrushShape::Single, 5, 1, 2, 3), vec![(1, 2, 3)]);
    assert_eq!(get_brush_positions(BrushShape::Cube, 1, 0, 0, 0).len(), 27);
    let sphere = get_brush_positions(BrushShape::Sphere, 1, 0, 0, 0);
    assert_eq!(sphere, vec![(-1, 0, 0), (0, -1, 0), (0, 0, -1), (0, 0, 0), (0, 0, 1), (0, 1, 0), (1, 0, 0)]);
    assert_eq!(get_brush_positions(BrushShape::Sphere, 2, 0, 0, 0).len(), 33);
    assert!(get_brush_positions(BrushShape::Cube, -1, 0, 0, 0).is_empty());
}

#[test]
fn punch_block_is_even_aligned() {
    let v = get_punch_positions_2x2(3, -1, 4);
    assert_eq!(v.len(), 8);
    assert_eq!(v[0], (2, -2, 4));
    assert_eq!(v[7], (3, -1, 5));
    assert!(v.contains(&(3, -1, 4)));
    let w = get_punch_positions_2x2(i32::MAX, i32::MIN, 0);
    assert_eq!(w[0], (i32::MAX - 1, i32::MIN, 0));
}

#[test]
fn break_keeps_only_solid_voxels() {
    let batch = break_batch(&Ground, (0, 0, 0), false, BrushShape::Single, 0);
    assert_eq!(batch.len(), 4);
    assert!(batch.iter().all(|e| e.1 == 0 && e.3 == AIR));
    let editor = break_batch(&Ground, (5, 1, 5), true, BrushShape::Cube, 1);
    assert_eq!(editor.len(), 9);
}

#[test]
fn place_fills_only_empty_voxels() {
    let batch = place_batch(&Ground, (0, 0, 0), (0, 1, 0), BrushShape::Cube, 1, 7);
    assert_eq!(batch.len(), 18);
    assert!(batch.iter().all(|e| e.1 >= 1 && e.3 == 7));
    let single = place_batch(&Ground, (0, 0, 0), (0, 1, 0), BrushShape::Single, 0, DEFAULT_PLACE_COLOR);
    assert_eq!(single, vec![(0, 1, 0, 33)]);
}

#[test]
fn edited_chunks_are_distinct_floor_divisions() {
    let batch = vec![(0, 0, 0, 0), (31, 5, 31, 0), (32, 0, 0, 0), (-1, -1, -33, 0)];
    let v = edited_chunks(&batch);
    assert_eq!(v, vec![ChunkPosition::new(0, 0, 0), ChunkPosition::new(1, 0, 0), ChunkPosition::new(-1, -1, -2)]);
}

#[test]
fn solid_voxels_in_box_lists_in_order() {
    let v = solid_voxels_in_box(&Ground, (0, -1, 0), (1, 1, 0));
    assert_eq!(v, vec![(0, -1, 0), (0, 0, 0), (1, -1, 0), (1, 0, 0)]);
    assert!(solid_voxels_in_box(&Ground, (0, 1, 0), (3, 3, 3)).is_empty());
    assert!(solid_voxels_in_box(&Ground, (1, 0, 0), (0, 0, 0)).is_empty());
}
