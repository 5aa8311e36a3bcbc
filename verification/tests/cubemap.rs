use battle_tok_render::cubemap_faces::{cubemap_face_size, face_row_bytes, CubemapFaceError};

#[test]
fn test_cubemap_faces_of_one_size() {
    let faces = [(512, 512); 6];
    assert_eq!(cubemap_face_size(&faces), Ok(512));
}

#[test]
fn test_cubemap_first_face_not_square() {
    let faces = [(512, 256), (512, 512), (512, 512), (512, 512), (512, 512), (512, 512)];
    assert_eq!(cubemap_face_size(&faces), Err(CubemapFaceError::NotSquare { width: 512, height: 256 }));
}

#[test]
fn test_cubemap_first_wrong_width_is_reported() {
    let faces = [(64, 64), (64, 64), (32, 32), (64, 64), (16, 16), (64, 64)];
    assert_eq!(
        cubemap_face_size(&faces),
        Err(CubemapFaceError::SizeMismatch { face: 2, width: 32, expected: 64 })
    );
}

#[test]
fn test_cubemap_only_widths_of_later_faces_are_checked() {
    let faces = [(64, 64), (64, 10), (64, 64), (64, 64), (64, 64), (64, 64)];
    assert_eq!(cubemap_face_size(&faces), Ok(64));
}

#[test]
fn test_face_row_bytes() {
    assert_eq!(face_row_bytes(2048), Some(8192));
    assert_eq!(face_row_bytes(0), Some(0));
    assert_eq!(face_row_bytes(u32::MAX / 4), Some(u32::MAX - 3));
    assert_eq!(face_row_bytes(u32::MAX / 4 + 1), None);
}
