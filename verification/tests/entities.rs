use battle_tok_render::entities::{
    pack_color, unpack_color, PrecisionClass, ENTITY_BUFFER_DATA_SIZE, ENTITY_COLORS, GPU_ENTITY_BUFFER_SIZE,
};
use battle_tok_render::entity_type;

#[test]
fn test_pack_unpack_color() {
    let (r, g, b) = (255, 128, 64);
    let packed = pack_color(r, g, b);
    let (ur, ug, ub) = unpack_color(packed);
    assert_eq!((ur, ug, ub), (r, g, b));
}

#[test]
fn test_precision_class_default() {
    let default: PrecisionClass = Default::default();
    assert_eq!(default, PrecisionClass::Static);
}

#[test]
fn test_precision_class_u32_conversion() {
    assert_eq!(PrecisionClass::Player.to_u32(), 0);
    assert_eq!(PrecisionClass::Interactive.to_u32(), 1);
    assert_eq!(PrecisionClass::Static.to_u32(), 2);
    assert_eq!(PrecisionClass::Terrain.to_u32(), 3);

    assert_eq!(PrecisionClass::from_u32(0), PrecisionClass::Player);
    assert_eq!(PrecisionClass::from_u32(1), PrecisionClass::Interactive);
    assert_eq!(PrecisionClass::from_u32(2), PrecisionClass::Static);
    assert_eq!(PrecisionClass::from_u32(3), PrecisionClass::Terrain);

    assert_eq!(PrecisionClass::from_u32(99), PrecisionClass::Static);
}

#[test]
fn pack_color_layout_is_0x00rrggbb() {
    assert_eq!(pack_color(0x12, 0x34, 0x56), 0x0012_3456);
    assert_eq!(pack_color(255, 136, 0), 0xFF8800);
    // the top byte is ignored when unpacking
    assert_eq!(unpack_color(0xAB12_3456), (0x12, 0x34, 0x56));
}

#[test]
fn precision_code_round_trip_for_every_class() {
    for class in [PrecisionClass::Player, PrecisionClass::Interactive, PrecisionClass::Static, PrecisionClass::Terrain] {
        assert_eq!(PrecisionClass::from_u32(class.to_u32()), class);
    }
    assert_eq!(PrecisionClass::from_u32(u32::MAX), PrecisionClass::Static);
}

#[test]
fn entity_constants() {
    assert_eq!(entity_type::SPHERE, 0);
    assert_eq!(entity_type::BOX, 1);
    assert_eq!(entity_type::CAPSULE, 2);
    assert_eq!(entity_type::TORUS, 3);
    assert_eq!(entity_type::CYLINDER, 4);
    assert_eq!(ENTITY_COLORS.len(), 8);
    assert_eq!(ENTITY_COLORS[0], (255, 100, 50));
    assert_eq!(ENTITY_BUFFER_DATA_SIZE, 16 + 48 * 64);
    assert_eq!(GPU_ENTITY_BUFFER_SIZE, 16 + 112 * 1024);
}
