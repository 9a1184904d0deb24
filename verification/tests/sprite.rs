use blockshot::sprite::{animate_sprite, flips, AnimationConfig, Direction, Motion};

#[test]
fn config_keeps_its_frames() {
    let config = AnimationConfig::new(0, 6, 3);
    assert_eq!(
        config,
        AnimationConfig { jump_index: 3, last_sprite_index: 6, first_sprite_index: 0 }
    );
}

#[test]
fn the_sheet_faces_right() {
    assert!(!flips(Direction::Right));
    assert!(flips(Direction::Left));
}

#[test]
fn a_jump_shows_the_jump_frame() {
    let config = AnimationConfig::new(0, 6, 3);
    for index in 0..10 {
        assert_eq!(animate_sprite(&config, index, Motion::Jumping), 3);
    }
}

#[test]
fn standing_shows_the_first_frame() {
    let config = AnimationConfig::new(2, 6, 3);
    for index in 0..10 {
        assert_eq!(animate_sprite(&config, index, Motion::Standing), 2);
    }
}

#[test]
fn the_run_cycle_waits_for_the_timer() {
    let config = AnimationConfig::new(0, 6, 3);
    for index in 0..10 {
        assert_eq!(animate_sprite(&config, index, Motion::Moving { frame_due: false }), index);
    }
}

#[test]
fn the_run_cycle_goes_round() {
    let config = AnimationConfig::new(1, 4, 9);
    let mut index = 1;
    let mut seen = Vec::new();
    for _ in 0..9 {
        index = animate_sprite(&config, index, Motion::Moving { frame_due: true });
        seen.push(index);
    }
    assert_eq!(seen, vec![2, 3, 4, 1, 2, 3, 4, 1, 2]);
}

#[test]
fn the_run_cycle_recovers_from_outside() {
    let config = AnimationConfig::new(1, 4, 9);
    assert_eq!(animate_sprite(&config, 9, Motion::Moving { frame_due: true }), 1);
    assert_eq!(animate_sprite(&config, usize::MAX, Motion::Moving { frame_due: true }), 1);
    assert_eq!(animate_sprite(&config, 0, Motion::Moving { frame_due: true }), 1);
}
