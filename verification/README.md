# voxel_engine

The game logic of a voxel sandbox engine, verified with Verus.

`src/` is the verified library:

- `chunk`, `resources`, `streaming`, `systems`: chunk positions and sets,
  mesh storage, the remesh queue and the per-frame choice of which chunk
  and LOD meshes are built, dispatched or dropped.
- `navigation`, `keys`, `ui_state`, `saves`: screens, key and mouse
  handling, settings presets and the world list.
- `brush`, `voxel_edit`, `collision`: voxel edit footprints and batches,
  and solid-voxel queries.
- `first_person`, `model`, `bvh`, `character`: held items and arm
  animations, textures, skeleton hierarchies, mesh triangles, flat BVH
  layout and GPU parameter blocks.
- `node_forest`: the node tree of a model file as a forest, and the proof
  that the skeleton built from it holds every node once.
- `terrain`, `movement`, `components`: terrain hashing and LOD grids,
  movement modes, and entity components.

`app/` holds what works on floating point, files and window events: the
entity-system wiring, physics, camera, terrain noise, animation clocks, the
material palette and the GLB loader.

`tests/` runs the library on concrete values.
