//! The input symbol: one byte per player per frame.
//!
//! Bit 0 is up, bit 1 down, bit 2 left, bit 3 right and bit 4 fire. Bits 5 to 7
//! are never set by [`encode`].

use std::collections::HashMap;
use vstd::prelude::*;

verus! {

/// Bit 0: move up.
pub const INPUT_UP: u8 = 1;

/// Bit 1: move down.
pub const INPUT_DOWN: u8 = 2;

/// Bit 2: move left.
pub const INPUT_LEFT: u8 = 4;

/// Bit 3: move right.
pub const INPUT_RIGHT: u8 = 8;

/// Bit 4: fire.
pub const INPUT_FIRE: u8 = 16;

/// Largest value an input symbol can take: all five meaningful bits set.
pub const INPUT_MASK: u8 = 31;

/// What the controls of one device read at the moment of sampling.
#[derive(Clone, Copy, Debug, PartialEq, Eq, Structural)]
pub struct DeviceState {
    pub up: bool,
    pub down: bool,
    pub left: bool,
    pub right: bool,
    pub fire: bool,
}

/// A direction on the grid before normalisation: each component is -1, 0 or 1.
#[derive(Clone, Copy, Debug, PartialEq, Eq, Structural)]
pub struct Direction {
    pub x: i8,
    pub y: i8,
}

/// What a control adds to the symbol: its bit if it is pressed, nothing if
/// not.
pub open spec fn weight(pressed: bool, bit: u8) -> int {
    if pressed {
        bit as int
    } else {
        0
    }
}

/// The symbol of a device state: the sum of the bits of the pressed controls.
pub open spec fn spec_encode(state: DeviceState) -> u8 {
    (weight(state.up, INPUT_UP) + weight(state.down, INPUT_DOWN) + weight(state.left, INPUT_LEFT)
        + weight(state.right, INPUT_RIGHT) + weight(state.fire, INPUT_FIRE)) as u8
}

/// Whether `bit`, one of the five single-bit constants, is set in `symbol`.
pub open spec fn has(symbol: u8, bit: u8) -> bool {
    symbol & bit != 0
}

/// Whether a symbol asks to fire: bit 4 is set.
pub open spec fn spec_fire(symbol: u8) -> bool {
    has(symbol, INPUT_FIRE)
}

/// One component of a direction: 1 if only the positive control is pressed,
/// -1 if only the negative one is, 0 if both are or neither is.
pub open spec fn sign(positive: bool, negative: bool) -> int {
    weight(positive, 1) - weight(negative, 1)
}

/// The direction a symbol asks for: right minus left, up minus down.
pub open spec fn spec_direction(symbol: u8) -> Direction {
    Direction {
        x: sign(has(symbol, INPUT_RIGHT), has(symbol, INPUT_LEFT)) as i8,
        y: sign(has(symbol, INPUT_UP), has(symbol, INPUT_DOWN)) as i8,
    }
}

/// The device state that a symbol stands for, read bit by bit.
pub open spec fn spec_decode(symbol: u8) -> DeviceState {
    DeviceState {
        up: has(symbol, INPUT_UP),
        down: has(symbol, INPUT_DOWN),
        left: has(symbol, INPUT_LEFT),
        right: has(symbol, INPUT_RIGHT),
        fire: has(symbol, INPUT_FIRE),
    }
}

impl Direction {
    /// Whether the direction points nowhere.
    pub open spec fn spec_is_zero(&self) -> bool {
        self.x == 0 && self.y == 0
    }

    /// Whether the direction points nowhere.
    #[verifier::when_used_as_spec(spec_is_zero)]
    pub fn is_zero(&self) -> (zero: bool)
        ensures
            zero == self.spec_is_zero(),
    {
        self.x == 0 && self.y == 0
    }
}

/// Packs a device state into its symbol. Every combination of controls has a
/// symbol, conflicting ones (up and down together) included.
pub fn encode(state: &DeviceState) -> (symbol: u8)
    ensures
        symbol == spec_encode(*state),
        symbol <= INPUT_MASK,
        spec_decode(symbol) == *state,
{
    let mut symbol: u8 = 0;
    if state.up {
        symbol = symbol + INPUT_UP;
    }
    if state.down {
        symbol = symbol + INPUT_DOWN;
    }
    if state.left {
        symbol = symbol + INPUT_LEFT;
    }
    if state.right {
        symbol = symbol + INPUT_RIGHT;
    }
    if state.fire {
        symbol = symbol + INPUT_FIRE;
    }
    proof {
        encode_then_decode(*state);
    }
    symbol
}

/// The direction of travel of a symbol, before normalisation. Opposing bits
/// cancel: up with down gives no vertical part, left with right no horizontal
/// part.
pub fn direction_from(input: &u8) -> (dir: Direction)
    ensures
        dir == spec_direction(*input),
        -1 <= dir.x <= 1,
        -1 <= dir.y <= 1,
{
    let mut x: i8 = 0;
    let mut y: i8 = 0;
    if *input & INPUT_UP != 0 {
        y = y + 1;
    }
    if *input & INPUT_DOWN != 0 {
        y = y - 1;
    }
    if *input & INPUT_LEFT != 0 {
        x = x - 1;
    }
    if *input & INPUT_RIGHT != 0 {
        x = x + 1;
    }
    Direction { x, y }
}

/// Whether the fire bit of a symbol is set.
pub fn fire(input: &u8) -> (pressed: bool)
    ensures
        pressed == spec_fire(*input),
{
    *input & INPUT_FIRE != 0
}

/// The symbol that every local player submits this tick: one entry per handle
/// in `players`, each the encoding of `keys`.
pub fn handle(players: &Vec<usize>, keys: &DeviceState) -> (local_inputs: HashMap<usize, u8>)
    ensures
        local_inputs@.dom() =~= players@.to_set(),
        forall|h: usize| local_inputs@.contains_key(h) ==> local_inputs@[h] == spec_encode(*keys),
{
    broadcast use vstd::std_specs::hash::group_hash_axioms;

    let input = encode(keys);
    let mut local_inputs: HashMap<usize, u8> = HashMap::new();
    let mut i: usize = 0;
    while i < players.len()
        invariant
            i <= players.len(),
            input == spec_encode(*keys),
            local_inputs@.dom() =~= players@.take(i as int).to_set(),
            forall|h: usize| local_inputs@.contains_key(h) ==> local_inputs@[h] == input,
        decreases players.len() - i,
    {
        local_inputs.insert(players[i], input);
        proof {
            let before = players@.take(i as int);
            let after = players@.take(i + 1);
            assert(after =~= before.push(players@[i as int]));
            assert(after.to_set() =~= before.to_set().insert(players@[i as int])) by {
                assert forall|h: usize| after.to_set().contains(h) implies before.to_set().insert(
                    players@[i as int],
                ).contains(h) by {
                    let j = choose|j: int| 0 <= j < after.len() && after[j] == h;
                    if j < i {
                        assert(before[j] == h);
                    }
                }
                assert forall|h: usize| before.to_set().insert(players@[i as int]).contains(
                    h,
                ) implies after.to_set().contains(h) by {
                    if h == players@[i as int] {
                        assert(after[i as int] == h);
                    } else {
                        let j = choose|j: int| 0 <= j < before.len() && before[j] == h;
                        assert(after[j] == h);
                    }
                }
            }
        }
        i = i + 1;
    }
    proof {
        assert(players@.take(players.len() as int) =~= players@);
    }
    local_inputs
}

/// Each single-bit test agrees with the arithmetic reading of the symbol.
pub proof fn bits_are_digits(symbol: u8)
    ensures
        has(symbol, INPUT_UP) == (symbol % 2 == 1),
        has(symbol, INPUT_DOWN) == ((symbol / 2) % 2 == 1),
        has(symbol, INPUT_LEFT) == ((symbol / 4) % 2 == 1),
        has(symbol, INPUT_RIGHT) == ((symbol / 8) % 2 == 1),
        has(symbol, INPUT_FIRE) == ((symbol / 16) % 2 == 1),
{
    assert((symbol & 1 != 0) == (symbol % 2 == 1)) by (bit_vector);
    assert((symbol & 2 != 0) == ((symbol / 2) % 2 == 1)) by (bit_vector);
    assert((symbol & 4 != 0) == ((symbol / 4) % 2 == 1)) by (bit_vector);
    assert((symbol & 8 != 0) == ((symbol / 8) % 2 == 1)) by (bit_vector);
    assert((symbol & 16 != 0) == ((symbol / 16) % 2 == 1)) by (bit_vector);
}

/// Decoding undoes encoding: every control reads back as it was sampled.
pub proof fn encode_then_decode(state: DeviceState)
    ensures
        spec_encode(state) <= INPUT_MASK,
        spec_decode(spec_encode(state)) == state,
        spec_fire(spec_encode(state)) == state.fire,
        spec_direction(spec_encode(state)) == (Direction {
            x: sign(state.right, state.left) as i8,
            y: sign(state.up, state.down) as i8,
        }),
{
    bits_are_digits(spec_encode(state));
}

/// Encoding undoes decoding on every symbol whose three high bits are clear.
pub proof fn decode_then_encode(symbol: u8)
    requires
        symbol <= INPUT_MASK,
    ensures
        spec_encode(spec_decode(symbol)) == symbol,
{
    bits_are_digits(symbol);
}

/// The direction of a symbol depends on its four low bits alone, and is the
/// expected sign pair: a component is zero exactly when its two bits agree.
pub proof fn direction_of_symbol(symbol: u8)
    ensures
        spec_direction(symbol).x == sign(has(symbol, INPUT_RIGHT), has(symbol, INPUT_LEFT)),
        spec_direction(symbol).y == sign(has(symbol, INPUT_UP), has(symbol, INPUT_DOWN)),
        spec_direction(symbol).x == 0 <==> (has(symbol, INPUT_RIGHT) == has(symbol, INPUT_LEFT)),
        spec_direction(symbol).y == 0 <==> (has(symbol, INPUT_UP) == has(symbol, INPUT_DOWN)),
        spec_direction(symbol) == spec_direction(symbol & 15),
{
    let low = symbol & 15;
    assert((low & 1 != 0) == (symbol & 1 != 0)) by (bit_vector)
        requires
            low == symbol & 15,
    ;
    assert((low & 2 != 0) == (symbol & 2 != 0)) by (bit_vector)
        requires
            low == symbol & 15,
    ;
    assert((low & 4 != 0) == (symbol & 4 != 0)) by (bit_vector)
        requires
            low == symbol & 15,
    ;
    assert((low & 8 != 0) == (symbol & 8 != 0)) by (bit_vector)
        requires
            low == symbol & 15,
    ;
}

/// The fire bit stands alone: `spec_fire` is what bit 4 says, and it stays so
/// whatever the four direction bits are replaced by.
pub proof fn fire_is_bit_four(symbol: u8, directions: u8)
    requires
        directions <= 15,
    ensures
        spec_fire(symbol) == ((symbol / 16) % 2 == 1),
        spec_fire((symbol & 0xf0) | directions) == spec_fire(symbol),
        spec_fire(symbol | INPUT_FIRE),
        !spec_fire(symbol & 0xef),
{
    bits_are_digits(symbol);
    assert((((symbol & 0xf0) | directions) & 16 != 0) == (symbol & 16 != 0)) by (bit_vector)
        requires
            directions <= 15,
    ;
    assert((symbol | 16) & 16 != 0) by (bit_vector);
    assert((symbol & 0xef) & 16 == 0) by (bit_vector);
}

} // verus!
