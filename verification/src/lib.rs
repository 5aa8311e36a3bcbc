use vstd::prelude::*;

pub mod entities;
pub mod entity_type;
pub mod instancing;
pub mod culling;
pub mod froxel_config;
pub mod froxel_buffers;
pub mod froxel_assignment;
pub mod froxel_dispatch;
pub mod binding_validator;
pub mod bake_queue;
pub mod sdf_bake_dispatch;
pub mod material_system;
pub mod sculpting;
pub mod pipeline;
pub mod gpu_context;
pub mod render_pass;
pub mod fog_post;
pub mod particles;
pub mod point_lights;
pub mod flag_material;
pub mod mesh_topology;
pub mod froxel_bounds;
pub mod hex_prism;
pub mod rebake_tracker;
pub mod hash_keys;
pub mod structural_support;
pub mod building_blocks;
pub mod cubemap_faces;

verus! {

} // verus!
