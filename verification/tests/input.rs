use blockshot::input::{
    direction_from, encode, fire, handle, DeviceState, Direction, INPUT_DOWN, INPUT_FIRE,
    INPUT_LEFT, INPUT_MASK, INPUT_RIGHT, INPUT_UP,
};

fn state_of(symbol: u8) -> DeviceState {
    DeviceState {
        up: symbol & 1 != 0,
        down: symbol & 2 != 0,
        left: symbol & 4 != 0,
        right: symbol & 8 != 0,
        fire: symbol & 16 != 0,
    }
}

#[test]
fn bits_have_the_wire_layout() {
    assert_eq!(INPUT_UP, 0b0000_0001);
    assert_eq!(INPUT_DOWN, 0b0000_0010);
    assert_eq!(INPUT_LEFT, 0b0000_0100);
    assert_eq!(INPUT_RIGHT, 0b0000_1000);
    assert_eq!(INPUT_FIRE, 0b0001_0000);
    assert_eq!(INPUT_MASK, 0b0001_1111);
}

#[test]
fn encode_gives_every_symbol_once() {
    for symbol in 0u8..32 {
        assert_eq!(encode(&state_of(symbol)), symbol);
    }
}

#[test]
fn encode_of_nothing_is_neutral() {
    let idle = DeviceState { up: false, down: false, left: false, right: false, fire: false };
    assert_eq!(encode(&idle), 0);
}

#[test]
fn encode_of_everything_is_the_mask() {
    let all = DeviceState { up: true, down: true, left: true, right: true, fire: true };
    assert_eq!(encode(&all), 31);
}

#[test]
fn encode_single_controls() {
    let idle = DeviceState { up: false, down: false, left: false, right: false, fire: false };
    assert_eq!(encode(&DeviceState { up: true, ..idle }), 1);
    assert_eq!(encode(&DeviceState { down: true, ..idle }), 2);
    assert_eq!(encode(&DeviceState { left: true, ..idle }), 4);
    assert_eq!(encode(&DeviceState { right: true, ..idle }), 8);
    assert_eq!(encode(&DeviceState { fire: true, ..idle }), 16);
}

#[test]
fn direction_matches_the_sign_combination_for_all_symbols() {
    for symbol in 0u8..32 {
        let keys = state_of(symbol);
        let x = (keys.right as i8) - (keys.left as i8);
        let y = (keys.up as i8) - (keys.down as i8);
        assert_eq!(direction_from(&symbol), Direction { x, y }, "symbol {}", symbol);
    }
}

#[test]
fn direction_single_bits() {
    assert_eq!(direction_from(&0), Direction { x: 0, y: 0 });
    assert_eq!(direction_from(&INPUT_UP), Direction { x: 0, y: 1 });
    assert_eq!(direction_from(&INPUT_DOWN), Direction { x: 0, y: -1 });
    assert_eq!(direction_from(&INPUT_LEFT), Direction { x: -1, y: 0 });
    assert_eq!(direction_from(&INPUT_RIGHT), Direction { x: 1, y: 0 });
}

#[test]
fn direction_diagonals() {
    assert_eq!(direction_from(&(INPUT_UP | INPUT_RIGHT)), Direction { x: 1, y: 1 });
    assert_eq!(direction_from(&(INPUT_UP | INPUT_LEFT)), Direction { x: -1, y: 1 });
    assert_eq!(direction_from(&(INPUT_DOWN | INPUT_RIGHT)), Direction { x: 1, y: -1 });
    assert_eq!(direction_from(&(INPUT_DOWN | INPUT_LEFT)), Direction { x: -1, y: -1 });
}

#[test]
fn opposing_bits_cancel() {
    assert!(direction_from(&(INPUT_UP | INPUT_DOWN)).is_zero());
    assert!(direction_from(&(INPUT_LEFT | INPUT_RIGHT)).is_zero());
    assert!(direction_from(&15).is_zero());
    assert_eq!(
        direction_from(&(INPUT_UP | INPUT_DOWN | INPUT_RIGHT)),
        Direction { x: 1, y: 0 }
    );
    assert_eq!(
        direction_from(&(INPUT_LEFT | INPUT_RIGHT | INPUT_DOWN)),
        Direction { x: 0, y: -1 }
    );
}

#[test]
fn direction_ignores_fire_and_unused_bits() {
    for symbol in 0u8..16 {
        let plain = direction_from(&symbol);
        assert_eq!(direction_from(&(symbol | INPUT_FIRE)), plain);
        assert_eq!(direction_from(&(symbol | 0b1110_0000)), plain);
    }
}

#[test]
fn fire_is_bit_four_for_all_symbols() {
    for symbol in 0u8..32 {
        assert_eq!(fire(&symbol), symbol & 16 != 0, "symbol {}", symbol);
        assert_eq!(fire(&symbol), symbol >= 16);
    }
}

#[test]
fn fire_ignores_the_direction_bits() {
    for low in 0u8..16 {
        assert!(!fire(&low));
        assert!(fire(&(low | INPUT_FIRE)));
    }
}

#[test]
fn decoding_reads_back_what_was_encoded() {
    for symbol in 0u8..32 {
        let keys = state_of(symbol);
        let encoded = encode(&keys);
        assert_eq!(fire(&encoded), keys.fire);
        let dir = direction_from(&encoded);
        assert_eq!(dir.x, (keys.right as i8) - (keys.left as i8));
        assert_eq!(dir.y, (keys.up as i8) - (keys.down as i8));
    }
}

#[test]
fn handle_gives_one_entry_per_local_player() {
    let keys = DeviceState { up: true, down: false, left: false, right: true, fire: true };
    let inputs = handle(&vec![0, 3], &keys);
    assert_eq!(inputs.len(), 2);
    assert_eq!(inputs.get(&0), Some(&25));
    assert_eq!(inputs.get(&3), Some(&25));
    assert_eq!(inputs.get(&1), None);
}

#[test]
fn handle_emits_neutral_when_nothing_is_pressed() {
    let idle = DeviceState { up: false, down: false, left: false, right: false, fire: false };
    let inputs = handle(&vec![1], &idle);
    assert_eq!(inputs.len(), 1);
    assert_eq!(inputs.get(&1), Some(&0));
}

#[test]
fn handle_without_local_players_is_empty() {
    let keys = DeviceState { up: true, down: true, left: true, right: true, fire: true };
    assert!(handle(&vec![], &keys).is_empty());
}

#[test]
fn handle_lists_a_repeated_player_once() {
    let keys = DeviceState { up: false, down: true, left: false, right: false, fire: false };
    let inputs = handle(&vec![2, 2, 2], &keys);
    assert_eq!(inputs.len(), 1);
    assert_eq!(inputs.get(&2), Some(&2));
}
