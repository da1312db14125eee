//! Verified core logic of a voxel game engine: chunk bookkeeping, mesh
//! scheduling, screen navigation, item/animation selection, brush shapes,
//! procedural LOD material selection, skeleton topology and BVH layout.

pub mod chunk;
pub mod collision;
pub mod resources;
pub mod ui_state;
pub mod navigation;
pub mod brush;
pub mod voxel_edit;
pub mod first_person;
pub mod streaming;
pub mod components;
pub mod keys;
pub mod systems;
pub mod terrain;
pub mod model;
pub mod bvh;
pub mod character;
pub mod saves;
pub mod movement;
pub mod node_forest;
