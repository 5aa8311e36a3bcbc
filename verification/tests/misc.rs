use battle_tok_render::bake_queue::{MAX_BAKES_PER_FRAME, TRANSITION_DURATION_MS};
use battle_tok_render::flag_material::FlagTeam;
use battle_tok_render::fog_post::{perm_table, PERLIN_PERMUTATION};
use battle_tok_render::material_system::{material_bind_slots, MaterialRegistry, MaterialType};
use battle_tok_render::particles::{SimpleRng, MAX_PARTICLES, PARTICLE_BUFFER_SIZE};
use battle_tok_render::point_lights::{MAX_POINT_LIGHTS, POINT_LIGHT_BUFFER_SIZE};
use battle_tok_render::sculpting::{FaceDirection, SculptMode};
use battle_tok_render::sdf_bake_dispatch::{brick_offset, FallbackState};

#[test]
fn bake_queue_test_constants() {
    assert_eq!(MAX_BAKES_PER_FRAME, 5);
    assert_eq!(TRANSITION_DURATION_MS as f32 / 1000.0, 0.3);
}

#[test]
fn test_material_type_names() {
    assert_eq!(MaterialType::Terrain.name(), "Terrain");
    assert_eq!(MaterialType::CastleStone.name(), "Castle Stone");
    assert_eq!(MaterialType::WoodPlank.name(), "Wood Plank");
    assert_eq!(MaterialType::ChainMetal.name(), "Chain Metal");
    assert_eq!(MaterialType::Flag.name(), "Flag");
    assert_eq!(MaterialType::Lava.name(), "Lava");
    assert_eq!(MaterialType::EmberParticle.name(), "Ember Particle");
}

#[test]
fn test_material_type_all() {
    let all: Vec<_> = MaterialType::all();
    assert_eq!(all.len(), 7);
    assert!(all.contains(&MaterialType::Terrain));
    assert!(all.contains(&MaterialType::CastleStone));
    assert!(all.contains(&MaterialType::WoodPlank));
    assert!(all.contains(&MaterialType::ChainMetal));
    assert!(all.contains(&MaterialType::Flag));
    assert!(all.contains(&MaterialType::Lava));
    assert!(all.contains(&MaterialType::EmberParticle));
}

#[test]
fn material_bind_slots_follow_scene_group() {
    let both = material_bind_slots(true, true);
    assert_eq!((both.scene, both.material), (Some(0), Some(1)));
    let own_only = material_bind_slots(false, true);
    assert_eq!((own_only.scene, own_only.material), (None, Some(0)));
    let scene_only = material_bind_slots(true, false);
    assert_eq!((scene_only.scene, scene_only.material), (Some(0), None));
}

#[test]
fn test_particle_buffer_size() {
    assert_eq!(PARTICLE_BUFFER_SIZE, 32768);
}

#[test]
fn test_max_particles() {
    assert_eq!(MAX_PARTICLES, 1024);
}

#[test]
fn test_point_light_buffer_size() {
    assert_eq!(POINT_LIGHT_BUFFER_SIZE, 512);
}

#[test]
fn test_max_point_lights() {
    assert_eq!(MAX_POINT_LIGHTS, 16);
}

#[test]
fn test_face_direction_opposite() {
    assert_eq!(
        FaceDirection::PositiveX.opposite(),
        FaceDirection::NegativeX
    );
    assert_eq!(
        FaceDirection::NegativeY.opposite(),
        FaceDirection::PositiveY
    );
}

#[test]
fn opposite_face_twice_is_the_face() {
    for face in FaceDirection::all() {
        assert_eq!(face.opposite().opposite(), face);
        assert_ne!(face.opposite(), face);
    }
    assert_eq!(SculptMode::default(), SculptMode::Extrude);
    assert_eq!(FlagTeam::default(), FlagTeam::Red);
}

#[test]
fn test_fallback_state() {
    let mut fallback = FallbackState::new();
    assert!(!fallback.uses_equation_fallback(1));
    fallback.mark_pending(1);
    assert!(fallback.uses_equation_fallback(1));
    fallback.mark_complete(1);
    assert!(!fallback.uses_equation_fallback(1));
}

#[test]
fn fallback_marks_leave_other_entities_alone() {
    let mut fallback = FallbackState::default();
    fallback.mark_pending(1);
    fallback.mark_pending(2);
    fallback.mark_complete(1);
    assert!(fallback.uses_equation_fallback(2));
    assert!(!fallback.uses_equation_fallback(1));
    // completing an entity that was never pending is harmless
    fallback.mark_complete(42);
    assert!(fallback.uses_equation_fallback(2));
}

#[test]
fn brick_offset_is_slot_times_voxels() {
    assert_eq!(brick_offset(0), 0);
    assert_eq!(brick_offset(3), 3 * 262_144);
}

#[test]
fn perm_table_doubles_the_permutation() {
    let perm = perm_table();
    assert_eq!(perm[0], 151);
    assert_eq!(perm[255], 180);
    assert_eq!(perm[256], 151);
    assert_eq!(perm[511], 180);
    for i in 0..512 {
        assert_eq!(perm[i], PERLIN_PERMUTATION[i % 256]);
    }
}

#[test]
fn simple_rng_is_deterministic_xorshift() {
    let mut rng = SimpleRng::new(42);
    let a = rng.next_u32();
    let mut x: u32 = 42;
    x ^= x << 13;
    x ^= x >> 17;
    x ^= x << 5;
    assert_eq!(a, x);
    let b = rng.next_u32();
    assert_ne!(a, b);
    let mut again = SimpleRng::new(42);
    assert_eq!(again.next_u32(), a);
    // a zero seed is replaced by 1, so the generator does not stay at 0
    let mut zero = SimpleRng::new(0);
    assert_ne!(zero.next_u32(), 0);
}

#[test]
fn material_registry_lists_registered_materials_in_order() {
    let mut registry: MaterialRegistry<&str> = MaterialRegistry::new();
    assert_eq!(registry.material_count(), 0);
    assert!(!registry.has_material(MaterialType::Lava));
    assert_eq!(registry.get_material(MaterialType::Lava), None);

    registry.register_material(MaterialType::Lava, "lava pipeline");
    registry.register_material(MaterialType::Terrain, "terrain pipeline");
    registry.register_material(MaterialType::Lava, "lava pipeline v2");
    assert!(registry.has_material(MaterialType::Lava));
    assert_eq!(registry.get_material(MaterialType::Lava), Some(&"lava pipeline v2"));
    assert_eq!(registry.material_count(), 2);
    assert_eq!(registry.registered_materials(), vec![MaterialType::Terrain, MaterialType::Lava]);
}
