use blockshot::input::{Direction, INPUT_DOWN, INPUT_FIRE, INPUT_LEFT, INPUT_RIGHT, INPUT_UP};
use blockshot::player::{
    attack, movement, reload, Arena, Bullet, Fighter, Movement, Player, Shot, Weapon,
};

fn facing(x: i8, y: i8) -> Movement {
    Movement { direction: Direction { x, y } }
}

#[test]
fn movement_turns_to_the_input() {
    let mut m = facing(1, 0);
    assert!(movement(&mut m, &INPUT_UP));
    assert_eq!(m, facing(0, 1));
    assert!(movement(&mut m, &(INPUT_DOWN | INPUT_LEFT)));
    assert_eq!(m, facing(-1, -1));
}

#[test]
fn movement_keeps_facing_without_direction() {
    let mut m = facing(-1, 0);
    assert!(!movement(&mut m, &0));
    assert_eq!(m, facing(-1, 0));
    assert!(!movement(&mut m, &INPUT_FIRE));
    assert_eq!(m, facing(-1, 0));
    assert!(!movement(&mut m, &(INPUT_LEFT | INPUT_RIGHT)));
    assert_eq!(m, facing(-1, 0));
    assert!(!movement(&mut m, &(INPUT_UP | INPUT_DOWN | INPUT_FIRE)));
    assert_eq!(m, facing(-1, 0));
}

#[test]
fn reload_needs_fire_released() {
    let mut weapon = Weapon { ready: false };
    reload(&mut weapon, &INPUT_FIRE);
    assert!(!weapon.ready);
    reload(&mut weapon, &(INPUT_FIRE | INPUT_UP));
    assert!(!weapon.ready);
    reload(&mut weapon, &INPUT_UP);
    assert!(weapon.ready);
    reload(&mut weapon, &INPUT_FIRE);
    assert!(weapon.ready);
}

#[test]
fn attack_fires_once_per_press() {
    let mut weapon = Weapon { ready: true };
    assert_eq!(attack(&mut weapon, &0), None);
    assert!(weapon.ready);
    assert_eq!(attack(&mut weapon, &INPUT_FIRE), Some(Bullet));
    assert!(!weapon.ready);
    assert_eq!(attack(&mut weapon, &INPUT_FIRE), None);
    assert!(!weapon.ready);
    assert_eq!(attack(&mut weapon, &0), None);
    assert!(!weapon.ready);
}

#[test]
fn spawn_places_two_ready_fighters() {
    let arena = Arena::spawn();
    assert_eq!(
        arena.fighters,
        vec![
            Fighter {
                player: Player { handle: 0 },
                movement: facing(-1, 0),
                weapon: Weapon { ready: true }
            },
            Fighter {
                player: Player { handle: 1 },
                movement: facing(1, 0),
                weapon: Weapon { ready: true }
            },
        ]
    );
    assert!(arena.shots.is_empty());
}

#[test]
fn step_turns_reloads_and_fires() {
    let mut arena = Arena::spawn();
    arena.step(&vec![INPUT_FIRE | INPUT_UP, INPUT_DOWN]);
    assert_eq!(arena.fighters[0].movement, facing(0, 1));
    assert!(!arena.fighters[0].weapon.ready);
    assert_eq!(arena.fighters[1].movement, facing(0, -1));
    assert!(arena.fighters[1].weapon.ready);
    assert_eq!(arena.shots, vec![Shot { bullet: Bullet, owner: 0, movement: facing(0, 1) }]);
}

#[test]
fn step_holding_fire_shoots_once() {
    let mut arena = Arena::spawn();
    for _ in 0..5 {
        arena.step(&vec![INPUT_FIRE, 0]);
    }
    assert_eq!(arena.shots.len(), 1);
    arena.step(&vec![0, 0]);
    arena.step(&vec![INPUT_FIRE, INPUT_FIRE]);
    assert_eq!(
        arena.shots,
        vec![
            Shot { bullet: Bullet, owner: 0, movement: facing(-1, 0) },
            Shot { bullet: Bullet, owner: 0, movement: facing(-1, 0) },
            Shot { bullet: Bullet, owner: 1, movement: facing(1, 0) },
        ]
    );
}

#[test]
fn step_skips_fighters_without_input() {
    let mut arena = Arena::spawn();
    arena.step(&vec![INPUT_RIGHT | INPUT_FIRE]);
    assert_eq!(arena.fighters[0].movement, facing(1, 0));
    assert_eq!(arena.fighters[1], Arena::spawn().fighters[1]);
    assert_eq!(arena.shots.len(), 1);
    arena.step(&vec![]);
    assert_eq!(arena.fighters[0].movement, facing(1, 0));
    assert!(!arena.fighters[0].weapon.ready);
}

#[test]
fn snapshot_and_restore_are_exact() {
    let mut arena = Arena::spawn();
    arena.step(&vec![INPUT_FIRE, INPUT_LEFT]);
    let kept = arena.snapshot();
    assert_eq!(kept, arena);
    arena.step(&vec![0, INPUT_FIRE]);
    assert_ne!(kept, arena);
    let after = arena.snapshot();
    arena.restore(&kept);
    assert_eq!(arena, kept);
    arena.step(&vec![0, INPUT_FIRE]);
    assert_eq!(arena, after);
}

#[test]
fn simulate_is_the_steps_in_order() {
    let frames = vec![vec![INPUT_FIRE, 0], vec![0, INPUT_FIRE | INPUT_UP], vec![INPUT_FIRE, 0]];
    let mut stepped = Arena::spawn();
    for frame in &frames {
        stepped.step(frame);
    }
    let mut simulated = Arena::spawn();
    simulated.simulate(&frames);
    assert_eq!(simulated, stepped);
    assert_eq!(simulated.shots.len(), 3);
}

#[test]
fn two_runs_over_the_same_frames_end_in_the_same_state() {
    let mut frames: Vec<Vec<u8>> = Vec::new();
    for f in 0u32..200 {
        frames.push(vec![(f * 7 % 32) as u8, (f * 13 % 32) as u8]);
    }
    let mut one = Arena::spawn();
    let mut other = Arena::spawn();
    one.simulate(&frames);
    other.simulate(&frames);
    assert_eq!(one, other);
    let mut stepwise = Arena::spawn();
    for (n, frame) in frames.iter().enumerate() {
        stepwise.step(frame);
        let mut again = Arena::spawn();
        again.simulate(&frames[..=n].to_vec());
        assert_eq!(again, stepwise);
    }
}

#[test]
fn toggling_fire_shoots_on_every_press() {
    let mut arena = Arena::spawn();
    let mut frames = Vec::new();
    for f in 0..10 {
        frames.push(vec![0, if f % 2 == 0 { INPUT_FIRE } else { 0 }]);
    }
    arena.simulate(&frames);
    assert_eq!(arena.shots.len(), 5);
    assert!(arena.shots.iter().all(|shot| shot.owner == 1));
}
