use battle_tok_render::sculpting::{FaceDirection, SculptMode, SculptState, SculptingManager, SelectionType};

#[test]
fn test_sculpting_manager() {
    let mut sculpt = SculptingManager::new();

    assert!(!sculpt.is_enabled());
    assert_eq!(sculpt.mode(), SculptMode::Extrude);

    sculpt.set_enabled(true);
    assert!(sculpt.is_enabled());

    sculpt.set_mode(SculptMode::PullEdge);
    assert_eq!(sculpt.mode(), SculptMode::PullEdge);
}

#[test]
fn face_selection_needs_enabled_extrude_mode() {
    let mut sculpt = SculptingManager::default();
    assert!(!sculpt.try_select_face(Some((3, FaceDirection::PositiveY))));
    assert_eq!(sculpt.selection(), SelectionType::Nothing);

    sculpt.set_enabled(true);
    assert!(!sculpt.try_select_face(None));
    assert!(sculpt.try_select_face(Some((3, FaceDirection::PositiveY))));
    assert_eq!(sculpt.selection(), SelectionType::Face { block_id: 3, direction: FaceDirection::PositiveY });
    assert_eq!(sculpt.state(), SculptState::Selecting);

    sculpt.set_mode(SculptMode::PullVertex);
    assert_eq!(sculpt.selection(), SelectionType::Nothing);
    assert_eq!(sculpt.state(), SculptState::Idle);
    assert!(!sculpt.try_select_face(Some((3, FaceDirection::PositiveY))));
}

#[test]
fn extrusion_steps_follow_the_drag() {
    let mut sculpt = SculptingManager::new();
    sculpt.set_enabled(true);
    sculpt.set_material(4);
    assert_eq!(sculpt.material(), 4);
    assert!(!sculpt.start_drag(true));
    sculpt.try_select_face(Some((1, FaceDirection::PositiveX)));
    assert!(!sculpt.start_drag(false));
    assert!(sculpt.start_drag(true));
    assert!(sculpt.has_active_extrusion());
    assert_eq!(sculpt.state(), SculptState::Dragging);

    // Drag three steps out: three blocks are created.
    assert_eq!(sculpt.missing_steps(3), 3);
    for id in [10, 11, 12] {
        sculpt.push_step(id);
    }
    assert_eq!(sculpt.extrusion_step_count(), 3);
    assert_eq!(sculpt.missing_steps(3), 0);

    // Back to one step: the last two come off, last first.
    assert_eq!(sculpt.retract_steps(1), vec![12, 11]);
    assert_eq!(sculpt.extrusion_step_count(), 1);
    assert!(sculpt.retract_steps(5).is_empty());

    sculpt.push_step(13);
    assert_eq!(sculpt.end_drag(), vec![10, 13]);
    assert_eq!(sculpt.state(), SculptState::Idle);
    assert!(!sculpt.has_active_extrusion());
    // The selection survives the end of the drag.
    assert_eq!(sculpt.selection(), SelectionType::Face { block_id: 1, direction: FaceDirection::PositiveX });
}

#[test]
fn cancel_with_cleanup_hands_back_created_blocks() {
    let mut sculpt = SculptingManager::new();
    sculpt.set_enabled(true);
    sculpt.try_select_face(Some((2, FaceDirection::NegativeZ)));
    sculpt.start_drag(true);
    sculpt.push_step(20);
    sculpt.push_step(21);
    assert_eq!(sculpt.cancel_with_cleanup(), vec![20, 21]);
    assert_eq!(sculpt.state(), SculptState::Idle);
    assert_eq!(sculpt.selection(), SelectionType::Nothing);
    assert_eq!(sculpt.extrusion_step_count(), 0);
}

#[test]
fn disabling_cancels_the_drag() {
    let mut sculpt = SculptingManager::new();
    sculpt.set_enabled(true);
    sculpt.try_select_face(Some((2, FaceDirection::NegativeZ)));
    sculpt.start_drag(true);
    sculpt.push_step(30);
    sculpt.set_enabled(false);
    assert!(!sculpt.has_active_extrusion());
    assert_eq!(sculpt.state(), SculptState::Idle);
    assert_eq!(sculpt.missing_steps(4), 0);
    assert!(!sculpt.start_drag(true));
}
