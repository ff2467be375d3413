use scene_render::camera::{AnimationStage, Blend, Key, Movement, RevolvingCamera, DURATION_MS};

#[test]
fn revolving_camera_round_trip() {
    let mut c = RevolvingCamera::new(8);
    assert_eq!(c.animation_stage, AnimationStage::NONE);
    assert_eq!(c.create_transformation(100, 100), Blend { num: 0, den: DURATION_MS });
    assert_eq!(c.angle, 100);

    c.handle_keys(Key::Key3, 2000);
    assert_eq!(c.animation_stage, AnimationStage::INTO);
    assert_eq!(c.destination, 2);
    assert_eq!(c.get_position(2000).num, 0);
    assert_eq!(c.create_transformation(2000, 16), Blend { num: 0, den: 1000 });
    assert_eq!(c.create_transformation(2500, 16), Blend { num: 500, den: 1000 });
    assert_eq!(c.create_transformation(2999, 16), Blend { num: 999, den: 1000 });
    assert_eq!(c.animation_stage, AnimationStage::INTO);
    assert_eq!(c.angle, 100);

    assert_eq!(c.create_transformation(3000, 1), Blend { num: 1000, den: 1000 });
    assert_eq!(c.animation_stage, AnimationStage::STATIONARY);
    assert_eq!(c.start_time, 3000);
    assert_eq!(c.create_transformation(3001, 1), Blend { num: 1000, den: 1000 });

    c.handle_keys(Key::Key5, 4000);
    assert_eq!(c.animation_stage, AnimationStage::OUT);
    assert_eq!(c.destination, 2);
    assert_eq!(c.create_transformation(4250, 16), Blend { num: 750, den: 1000 });
    assert_eq!(c.animation_stage, AnimationStage::OUT);
    assert_eq!(c.create_transformation(5000, 16), Blend { num: 0, den: 1000 });
    assert_eq!(c.animation_stage, AnimationStage::NONE);
    assert_eq!(c.create_transformation(5016, 16), Blend { num: 0, den: 1000 });
    assert_eq!(c.angle, 116);
}

#[test]
fn triggers_mid_transition_are_ignored() {
    let mut c = RevolvingCamera::new(8);
    c.handle_keys(Key::Key1, 0);
    c.handle_keys(Key::Key8, 300);
    assert_eq!(c.animation_stage, AnimationStage::INTO);
    assert_eq!(c.destination, 0);
    assert_eq!(c.start_time, 0);
}

#[test]
fn other_keys_leave_the_revolving_camera() {
    let mut c = RevolvingCamera::new(9);
    let before = c;
    c.handle_keys(Key::W, 10);
    c.handle_keys(Key::Other, 10);
    assert_eq!(c, before);
}

#[test]
fn time_before_the_stage_start_clamps_to_zero() {
    let mut c = RevolvingCamera::new(8);
    c.start_if_needed(500, 4);
    assert_eq!(c.get_position(100), Blend { num: 0, den: 1000 });
}

#[test]
fn numbered_keys_select_targets() {
    assert_eq!(Key::Key1.target(), Some(0));
    assert_eq!(Key::Key8.target(), Some(7));
    assert_eq!(Key::A.target(), None);
}

#[test]
fn movement_keys_map_to_axes() {
    assert_eq!(Key::A.movement(), Some(Movement { axis: 0, positive: false }));
    assert_eq!(Key::D.movement(), Some(Movement { axis: 0, positive: true }));
    assert_eq!(Key::E.movement(), Some(Movement { axis: 1, positive: true }));
    assert_eq!(Key::Q.movement(), Some(Movement { axis: 1, positive: false }));
    assert_eq!(Key::W.movement(), Some(Movement { axis: 2, positive: false }));
    assert_eq!(Key::S.movement(), Some(Movement { axis: 2, positive: true }));
    assert_eq!(Key::Key1.movement(), None);
}
