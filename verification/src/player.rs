//! The players of the arena and the integer part of the simulation step.
//!
//! A frame does three things to a player, in this order: it turns the player
//! into the direction of the input, it reloads the weapon if fire is not
//! pressed, and it fires if fire is pressed and the weapon is ready. Where a
//! player stands and where its bullets fly is floating-point work and is left
//! to the host.

use crate::input::{spec_direction, spec_fire, Direction};
use crate::input::{direction_from, fire};
use vstd::prelude::*;

verus! {

/// The seat of a player in the match.
#[derive(Clone, Copy, Debug, PartialEq, Eq, Structural)]
pub struct Player {
    pub handle: usize,
}

/// The direction a player or a bullet faces.
#[derive(Clone, Copy, Debug, PartialEq, Eq, Structural)]
pub struct Movement {
    pub direction: Direction,
}

/// A weapon fires once and is ready again after fire has been released.
#[derive(Clone, Copy, Debug, PartialEq, Eq, Structural)]
pub struct Weapon {
    pub ready: bool,
}

/// Marks what a shot brings into the arena.
#[derive(Clone, Copy, Debug, PartialEq, Eq, Structural)]
pub struct Bullet;

/// A player with everything of it that a rollback has to restore.
#[derive(Clone, Copy, Debug, PartialEq, Eq, Structural)]
pub struct Fighter {
    pub player: Player,
    pub movement: Movement,
    pub weapon: Weapon,
}

/// A bullet in flight: who shot it and which way it flies.
#[derive(Clone, Copy, Debug, PartialEq, Eq, Structural)]
pub struct Shot {
    pub bullet: Bullet,
    pub owner: usize,
    pub movement: Movement,
}

/// The rollback-tracked state of a match: the fighters, and the shots fired so
/// far in the order in which they were fired.
#[derive(Debug, PartialEq, Eq)]
pub struct Arena {
    pub fighters: Vec<Fighter>,
    pub shots: Vec<Shot>,
}

/// An arena as contracts see it.
pub struct ArenaView {
    pub fighters: Seq<Fighter>,
    pub shots: Seq<Shot>,
}

impl View for Arena {
    type V = ArenaView;

    open spec fn view(&self) -> ArenaView {
        ArenaView { fighters: self.fighters@, shots: self.shots@ }
    }
}

/// The direction faced after a frame with this input: the input's direction,
/// unless that is zero.
pub open spec fn turned(movement: Movement, input: u8) -> Movement {
    if spec_direction(input).spec_is_zero() {
        movement
    } else {
        Movement { direction: spec_direction(input) }
    }
}

/// Whether a weapon fires in a frame with this input. Reloading comes first,
/// so a weapon that is not ready stays silent while fire is held.
pub open spec fn fires(weapon: Weapon, input: u8) -> bool {
    spec_fire(input) && weapon.ready
}

/// The weapon after a frame with this input: ready exactly if fire is not
/// pressed.
pub open spec fn rearmed(weapon: Weapon, input: u8) -> Weapon {
    Weapon { ready: !spec_fire(input) }
}

/// The input that the frame holds for a fighter, if it holds one.
pub open spec fn input_of(fighter: Fighter, inputs: Seq<u8>) -> Option<u8> {
    if fighter.player.handle < inputs.len() {
        Some(inputs[fighter.player.handle as int])
    } else {
        None
    }
}

/// A fighter after a frame. A fighter for whom the frame holds no input stays
/// as it is.
pub open spec fn fighter_after(fighter: Fighter, inputs: Seq<u8>) -> Fighter {
    match input_of(fighter, inputs) {
        Some(input) => Fighter {
            player: fighter.player,
            movement: turned(fighter.movement, input),
            weapon: rearmed(fighter.weapon, input),
        },
        None => fighter,
    }
}

/// The shot a fighter fires in a frame, if it fires. The shot flies the way
/// the fighter faces after turning.
pub open spec fn shot_of(fighter: Fighter, inputs: Seq<u8>) -> Option<Shot> {
    match input_of(fighter, inputs) {
        Some(input) => if fires(fighter.weapon, input) {
            Some(
                Shot {
                    bullet: Bullet,
                    owner: fighter.player.handle,
                    movement: turned(fighter.movement, input),
                },
            )
        } else {
            None
        },
        None => None,
    }
}

/// The shots that the fighters fire in a frame, in the order of the fighters.
pub open spec fn shots_of(fighters: Seq<Fighter>, inputs: Seq<u8>) -> Seq<Shot>
    decreases fighters.len(),
{
    if fighters.len() == 0 {
        Seq::empty()
    } else {
        let earlier = shots_of(fighters.drop_last(), inputs);
        match shot_of(fighters.last(), inputs) {
            Some(shot) => earlier.push(shot),
            None => earlier,
        }
    }
}

/// The simulation step: the arena after a frame with these inputs.
pub open spec fn spec_step(arena: ArenaView, inputs: Seq<u8>) -> ArenaView {
    ArenaView {
        fighters: Seq::new(arena.fighters.len(), |i: int| fighter_after(arena.fighters[i], inputs)),
        shots: arena.shots + shots_of(arena.fighters, inputs),
    }
}

/// The arena after a list of frames.
pub open spec fn spec_simulate(arena: ArenaView, frames: Seq<Seq<u8>>) -> ArenaView
    decreases frames.len(),
{
    if frames.len() == 0 {
        arena
    } else {
        spec_step(spec_simulate(arena, frames.drop_last()), frames.last())
    }
}

/// Turns to where the input points. An input without direction, or one whose
/// directions cancel, turns nothing. The result says whether the player moves.
pub fn movement(facing: &mut Movement, input: &u8) -> (moves: bool)
    ensures
        moves == !spec_direction(*input).spec_is_zero(),
        *final(facing) == turned(*old(facing), *input),
{
    let dir = direction_from(input);
    if dir.is_zero() {
        return false;
    }
    facing.direction = dir;
    true
}

/// Makes the weapon ready if fire is not pressed.
pub fn reload(weapon: &mut Weapon, input: &u8)
    ensures
        final(weapon).ready == (old(weapon).ready || !spec_fire(*input)),
{
    if !fire(input) {
        weapon.ready = true;
    }
}

/// Fires if fire is pressed and the weapon is ready. A weapon that has fired
/// is no longer ready.
pub fn attack(weapon: &mut Weapon, input: &u8) -> (bullet: Option<Bullet>)
    ensures
        bullet.is_some() == fires(*old(weapon), *input),
        final(weapon).ready == (old(weapon).ready && !spec_fire(*input)),
{
    if fire(input) && weapon.ready {
        weapon.ready = false;
        Some(Bullet)
    } else {
        None
    }
}

impl Arena {
    /// The arena at the start of a match: the player with handle 0 faces left,
    /// the player with handle 1 faces right, both weapons are ready and no
    /// shot has been fired.
    pub fn spawn() -> (arena: Arena)
        ensures
            arena@.shots == Seq::<Shot>::empty(),
            arena@.fighters == seq![
                Fighter {
                    player: Player { handle: 0 },
                    movement: Movement { direction: Direction { x: -1i8, y: 0 } },
                    weapon: Weapon { ready: true },
                },
                Fighter {
                    player: Player { handle: 1 },
                    movement: Movement { direction: Direction { x: 1, y: 0 } },
                    weapon: Weapon { ready: true },
                },
            ],
    {
        let mut fighters: Vec<Fighter> = Vec::new();
        fighters.push(
            Fighter {
                player: Player { handle: 0 },
                movement: Movement { direction: Direction { x: -1i8, y: 0 } },
                weapon: Weapon { ready: true },
            },
        );
        fighters.push(
            Fighter {
                player: Player { handle: 1 },
                movement: Movement { direction: Direction { x: 1, y: 0 } },
                weapon: Weapon { ready: true },
            },
        );
        let arena = Arena { fighters, shots: Vec::new() };
        assert(arena@.fighters =~= seq![
            Fighter {
                player: Player { handle: 0 },
                movement: Movement { direction: Direction { x: -1i8, y: 0 } },
                weapon: Weapon { ready: true },
            },
            Fighter {
                player: Player { handle: 1 },
                movement: Movement { direction: Direction { x: 1, y: 0 } },
                weapon: Weapon { ready: true },
            },
        ]);
        arena
    }

    /// A copy of the arena, to be kept as a snapshot.
    pub fn snapshot(&self) -> (copy: Arena)
        ensures
            copy@ == self@,
    {
        let mut fighters: Vec<Fighter> = Vec::new();
        let mut i: usize = 0;
        while i < self.fighters.len()
            invariant
                i <= self.fighters.len(),
                fighters@ == self.fighters@.take(i as int),
            decreases self.fighters.len() - i,
        {
            fighters.push(self.fighters[i]);
            assert(self.fighters@.take(i + 1) =~= self.fighters@.take(i as int).push(
                self.fighters@[i as int],
            ));
            i = i + 1;
        }
        assert(self.fighters@.take(self.fighters.len() as int) =~= self.fighters@);
        let mut shots: Vec<Shot> = Vec::new();
        let mut j: usize = 0;
        while j < self.shots.len()
            invariant
                j <= self.shots.len(),
                shots@ == self.shots@.take(j as int),
            decreases self.shots.len() - j,
        {
            shots.push(self.shots[j]);
            assert(self.shots@.take(j + 1) =~= self.shots@.take(j as int).push(self.shots@[j as int]));
            j = j + 1;
        }
        assert(self.shots@.take(self.shots.len() as int) =~= self.shots@);
        Arena { fighters, shots }
    }

    /// Puts a snapshot back in place of the current state.
    pub fn restore(&mut self, snapshot: &Arena)
        ensures
            final(self)@ == snapshot@,
    {
        let copy = snapshot.snapshot();
        self.fighters = copy.fighters;
        self.shots = copy.shots;
    }

    /// Simulates one frame: every fighter for whom `inputs` holds a symbol
    /// turns, reloads and fires, in the order of the fighters.
    pub fn step(&mut self, inputs: &Vec<u8>)
        ensures
            final(self)@ == spec_step(old(self)@, inputs@),
    {
        let mut i: usize = 0;
        while i < self.fighters.len()
            invariant
                i <= self.fighters.len(),
                self.fighters.len() == old(self).fighters.len(),
                forall|k: int|
                    0 <= k < i ==> #[trigger] self.fighters@[k] == fighter_after(
                        old(self).fighters@[k],
                        inputs@,
                    ),
                forall|k: int|
                    i <= k < self.fighters.len() ==> #[trigger] self.fighters@[k] == old(self).fighters@[k],
                self.shots@ == old(self).shots@ + shots_of(
                    old(self).fighters@.take(i as int),
                    inputs@,
                ),
            decreases self.fighters.len() - i,
        {
            let mut fighter = self.fighters[i];
            proof {
                let taken = old(self).fighters@.take(i + 1);
                assert(taken.drop_last() =~= old(self).fighters@.take(i as int));
                assert(taken.last() == old(self).fighters@[i as int]);
            }
            if fighter.player.handle < inputs.len() {
                let input = inputs[fighter.player.handle];
                movement(&mut fighter.movement, &input);
                reload(&mut fighter.weapon, &input);
                match attack(&mut fighter.weapon, &input) {
                    Some(bullet) => {
                        self.shots.push(
                            Shot {
                                bullet,
                                owner: fighter.player.handle,
                                movement: fighter.movement,
                            },
                        );
                    },
                    None => {},
                }
                self.fighters[i] = fighter;
            }
            i = i + 1;
        }
        proof {
            assert(old(self).fighters@.take(self.fighters.len() as int) =~= old(self).fighters@);
            assert(self@.fighters =~= spec_step(old(self)@, inputs@).fighters);
        }
    }

    /// Simulates a list of frames in order. The result depends on the arena
    /// and the frames alone: two runs from equal arenas over equal frames end
    /// in equal arenas.
    pub fn simulate(&mut self, frames: &Vec<Vec<u8>>)
        ensures
            final(self)@ == spec_simulate(
                old(self)@,
                Seq::new(frames@.len(), |f: int| frames@[f]@),
            ),
    {
        let ghost all = Seq::new(frames@.len(), |f: int| frames@[f]@);
        let mut f: usize = 0;
        while f < frames.len()
            invariant
                f <= frames.len(),
                all == Seq::new(frames@.len(), |k: int| frames@[k]@),
                self@ == spec_simulate(old(self)@, all.take(f as int)),
            decreases frames.len() - f,
        {
            self.step(&frames[f]);
            proof {
                assert(all.take(f + 1).drop_last() =~= all.take(f as int));
                assert(all.take(f + 1).last() == frames@[f as int]@);
            }
            f = f + 1;
        }
        proof {
            assert(all.take(frames.len() as int) =~= all);
        }
    }
}

} // verus!
