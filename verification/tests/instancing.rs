use battle_tok_render::instancing::{pack_rgba, unpack_rgba, INSTANCE_BUFFER_SIZE, MAX_CREATURE_INSTANCES};

#[test]
fn test_instance_buffer_size() {
    assert_eq!(INSTANCE_BUFFER_SIZE, 96_000);
}

#[test]
fn test_max_instances() {
    assert_eq!(MAX_CREATURE_INSTANCES, 2000);
}

#[test]
fn test_pack_unpack_rgba() {
    let (r, g, b, a) = (255, 128, 64, 200);
    let packed = pack_rgba(r, g, b, a);
    let (ur, ug, ub, ua) = unpack_rgba(packed);
    assert_eq!((ur, ug, ub, ua), (r, g, b, a));
}

#[test]
fn pack_rgba_layout_is_0xrrggbbaa() {
    assert_eq!(pack_rgba(0x12, 0x34, 0x56, 0x78), 0x1234_5678);
    assert_eq!(pack_rgba(255, 255, 255, 255), 0xFFFF_FFFF);
    assert_eq!(unpack_rgba(0xFF00_00FF), (255, 0, 0, 255));
    assert_eq!(pack_rgba(0, 0, 0, 0), 0);
}
