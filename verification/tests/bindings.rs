use battle_tok_render::binding_validator::{
    classify_entry, render_group1_expected, validate_all_startup_bindings, validate_bind_group,
    validate_compute_bindings, validate_render_bindings, BufferBindingKind, ExpectedBindingType,
    LayoutBindingType, LayoutEntry, MismatchKind,
};

fn uniform(binding: u32) -> LayoutEntry {
    LayoutEntry { binding, ty: LayoutBindingType::Buffer(BufferBindingKind::Uniform) }
}

fn storage(binding: u32, read_only: bool) -> LayoutEntry {
    LayoutEntry { binding, ty: LayoutBindingType::Buffer(BufferBindingKind::Storage { read_only }) }
}

fn render_group0() -> Vec<LayoutEntry> {
    vec![
        uniform(0),
        storage(1, true),
        uniform(2),
        storage(3, true),
        storage(4, true),
        storage(5, true),
        LayoutEntry { binding: 8, ty: LayoutBindingType::Texture { cube: true } },
        LayoutEntry { binding: 9, ty: LayoutBindingType::Sampler },
    ]
}

#[test]
fn classify_entry_follows_binding_types() {
    assert_eq!(classify_entry(&uniform(0)), ExpectedBindingType::UniformBuffer);
    assert_eq!(classify_entry(&storage(0, true)), ExpectedBindingType::StorageBufferReadOnly);
    assert_eq!(classify_entry(&storage(0, false)), ExpectedBindingType::StorageBufferReadWrite);
    assert_eq!(
        classify_entry(&LayoutEntry { binding: 0, ty: LayoutBindingType::Texture { cube: true } }),
        ExpectedBindingType::TextureCube
    );
    assert_eq!(
        classify_entry(&LayoutEntry { binding: 0, ty: LayoutBindingType::Sampler }),
        ExpectedBindingType::Sampler
    );
    // everything the validator does not know counts as a uniform buffer
    assert_eq!(
        classify_entry(&LayoutEntry { binding: 0, ty: LayoutBindingType::Texture { cube: false } }),
        ExpectedBindingType::UniformBuffer
    );
    assert_eq!(
        classify_entry(&LayoutEntry { binding: 0, ty: LayoutBindingType::Other }),
        ExpectedBindingType::UniformBuffer
    );
}

#[test]
fn the_startup_layouts_validate_cleanly() {
    let g1 = vec![storage(0, true)];
    assert!(validate_render_bindings(&render_group0(), &g1).is_empty());
    let bake = vec![uniform(0), storage(1, false)];
    let clear = vec![storage(0, false)];
    let assign = vec![storage(0, true), storage(1, true), storage(2, false), uniform(3)];
    let culling = vec![storage(0, false), storage(1, true), uniform(2)];
    assert!(validate_compute_bindings(&bake, &clear, &assign, &culling).is_empty());
    assert!(validate_all_startup_bindings(&render_group0(), &g1, &bake, &clear, &assign, &culling).is_empty());
}

#[test]
fn missing_wrong_and_extra_bindings_are_reported_in_order() {
    let expected = render_group1_expected();
    // binding 0 is read-write instead of read-only, and binding 7 is not expected
    let actual = vec![storage(0, false), uniform(7)];
    let mismatches = validate_bind_group(&expected, &actual);
    assert_eq!(mismatches.len(), 2);
    assert_eq!(mismatches[0].binding, 0);
    assert_eq!(mismatches[0].pipeline_name, "Render");
    assert_eq!(mismatches[0].group_index, 1);
    match mismatches[0].kind {
        MismatchKind::WrongType { expected, actual, label } => {
            assert_eq!(expected, ExpectedBindingType::StorageBufferReadOnly);
            assert_eq!(actual, ExpectedBindingType::StorageBufferReadWrite);
            assert_eq!(label, "BrickCache SSBO");
        }
        _ => panic!("expected a type mismatch"),
    }
    assert_eq!(mismatches[1].binding, 7);
    assert!(matches!(mismatches[1].kind, MismatchKind::Extra { actual: ExpectedBindingType::UniformBuffer }));

    let none: Vec<LayoutEntry> = Vec::new();
    let missing = validate_bind_group(&expected, &none);
    assert_eq!(missing.len(), 1);
    assert!(matches!(missing[0].kind, MismatchKind::Missing { expected: ExpectedBindingType::StorageBufferReadOnly, .. }));
}

#[test]
fn the_first_entry_with_a_number_is_the_one_compared() {
    let expected = render_group1_expected();
    let actual = vec![storage(0, true), uniform(0)];
    // the duplicate is neither wrong (the first one matches) nor extra (binding 0 is expected)
    assert!(validate_bind_group(&expected, &actual).is_empty());
}

#[test]
fn descriptions_name_the_types() {
    assert_eq!(ExpectedBindingType::UniformBuffer.description(), "uniform buffer");
    assert_eq!(ExpectedBindingType::StorageBufferReadOnly.description(), "storage buffer (read-only)");
    assert_eq!(ExpectedBindingType::TextureCube.description(), "texture cube");
}
