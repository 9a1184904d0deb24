//! Which frame of a sprite sheet a character shows.

use vstd::prelude::*;

verus! {

/// The way a character faces.
#[derive(Clone, Copy, Debug, PartialEq, Eq, Structural)]
pub enum Direction {
    Left,
    Right,
}

/// What a character is doing, as far as its picture depends on it.
#[derive(Clone, Copy, Debug, PartialEq, Eq, Structural)]
pub enum Motion {
    /// In the air.
    Jumping,
    /// On the move; `frame_due` says whether the frame timer has just run out.
    Moving { frame_due: bool },
    /// Standing still.
    Standing,
}

/// The frames of a sprite sheet: the run cycle goes from `first` to `last`
/// and starts over, and `jump` is the frame shown in the air.
#[derive(Clone, Copy, Debug, PartialEq, Eq, Structural)]
pub struct AnimationConfig {
    pub jump_index: usize,
    pub last_sprite_index: usize,
    pub first_sprite_index: usize,
}

impl AnimationConfig {
    /// The frames of a sheet whose run cycle is `first..=last` and whose jump
    /// frame is `jump`.
    pub fn new(first: usize, last: usize, jump: usize) -> (config: AnimationConfig)
        ensures
            config == (AnimationConfig {
                jump_index: jump,
                last_sprite_index: last,
                first_sprite_index: first,
            }),
    {
        AnimationConfig { jump_index: jump, last_sprite_index: last, first_sprite_index: first }
    }
}

/// The frame that follows `index` in the run cycle.
pub open spec fn following(config: AnimationConfig, index: usize) -> usize {
    if index >= config.last_sprite_index {
        config.first_sprite_index
    } else {
        (index + 1) as usize
    }
}

/// The frame to show next.
pub open spec fn spec_animate_sprite(config: AnimationConfig, index: usize, motion: Motion) -> usize {
    match motion {
        Motion::Jumping => config.jump_index,
        Motion::Moving { frame_due } => if frame_due {
            following(config, index)
        } else {
            index
        },
        Motion::Standing => config.first_sprite_index,
    }
}

/// Whether the picture is mirrored: the sheet is drawn facing right.
pub fn flips(direction: Direction) -> (flip: bool)
    ensures
        flip == (direction == Direction::Left),
{
    match direction {
        Direction::Right => false,
        Direction::Left => true,
    }
}

/// The frame to show next, given the one shown now: the jump frame in the
/// air, the first frame when standing, and on the move the same frame until
/// the timer runs out and then the next of the cycle.
pub fn animate_sprite(config: &AnimationConfig, index: usize, motion: Motion) -> (next: usize)
    ensures
        next == spec_animate_sprite(*config, index, motion),
{
    match motion {
        Motion::Jumping => config.jump_index,
        Motion::Moving { frame_due } => {
            if !frame_due {
                index
            } else if index >= config.last_sprite_index {
                config.first_sprite_index
            } else {
                index + 1
            }
        },
        Motion::Standing => config.first_sprite_index,
    }
}

/// A run cycle that starts inside its frames stays inside them.
pub proof fn cycle_stays_inside(config: AnimationConfig, index: usize)
    requires
        config.first_sprite_index <= index <= config.last_sprite_index,
    ensures
        config.first_sprite_index <= following(config, index) <= config.last_sprite_index,
{
}

} // verus!
