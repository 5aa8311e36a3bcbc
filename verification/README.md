# battle_tok_render

The rendering side of a voxel/SDF battle game: the bookkeeping, scheduling and index
arithmetic behind its passes, written in Verus with every function's contract proved. One
function is trusted rather than proved: the wrapper around std's `str::to_lowercase` in
`pipeline`, whose result the contracts treat as a function of the string alone.

## Layout

- `src/` — the verified library. Among its modules:
  - `bake_queue`, `rebake_tracker`, `sdf_bake_dispatch`: which SDFs get baked or re-baked,
    slot hand-out and hand-back, and the dispatch sizes of a bake.
  - `froxel_config`, `froxel_buffers`, `froxel_assignment`, `froxel_dispatch`,
    `froxel_bounds`: the froxel grid's indexing, its per-froxel SDF lists, dispatch plans and
    the camera change hash.
  - `culling`, `instancing`, `entities`, `entity_type`, `point_lights`, `particles`:
    visibility bookkeeping, instance buffers, packed entity data, the torch list and the
    particles' generator.
  - `binding_validator`, `pipeline`, `gpu_context`, `render_pass`: bind-group layout checks,
    present-mode and adapter choices, and the order in which passes run.
  - `mesh_topology`, `hex_prism`, `building_blocks`, `structural_support`, `sculpting`:
    triangle index lists of the block shapes, the hex-prism grid, the block store with its
    merge groups, the support cascade of collapsing structures, and the sculpting tool's
    state machine.
  - `material_system`, `flag_material`, `fog_post`, `cubemap_faces`: material slots, flag
    teams, the fog noise permutation and the checks on a skybox's faces.
- `tests/` — tests of the library on concrete values, one file per area.
- `app/` — the engine around the library, in ordinary Rust: wgpu and winit plumbing, image
  loading, and the floating point geometry and simulation (SDFs, mesh vertices, building
  physics, camera data, noise) that hands the library plain values and acts on its answers.
