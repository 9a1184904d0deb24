use blockshot::rollback::InputMessage;
use blockshot::wire::{decode_message, encode_message, HEADER};

#[test]
fn packet_layout() {
    let message = InputMessage { handle: 1, start: 0x0102, inputs: vec![16, 0, 9] };
    let packet = encode_message(&message).expect("valid message");
    assert_eq!(packet, vec![1, 0x02, 0x01, 0, 0, 0, 0, 0, 0, 16, 0, 9]);
    assert_eq!(packet.len(), HEADER + 3);
}

#[test]
fn decode_reads_the_layout() {
    let packet = vec![3u8, 10, 0, 0, 0, 0, 0, 0, 0, 31, 1];
    assert_eq!(
        decode_message(&packet),
        Some(InputMessage { handle: 3, start: 10, inputs: vec![31, 1] })
    );
}

#[test]
fn encode_then_decode_round_trips() {
    for handle in [0usize, 1, 255] {
        for start in [0usize, 1, 255, 256, 65_535, 1 << 31] {
            let message = InputMessage { handle, start, inputs: vec![0, 31, 16, 5] };
            let packet = encode_message(&message).expect("valid message");
            assert_eq!(decode_message(&packet), Some(message));
        }
    }
}

#[test]
fn decode_then_encode_round_trips() {
    let packet = vec![0u8, 1, 2, 3, 4, 0, 0, 0, 0, 7, 8, 9];
    let message = decode_message(&packet).expect("valid packet");
    assert_eq!(message.start, 0x04030201);
    assert_eq!(encode_message(&message), Some(packet));
}

#[test]
fn empty_run_is_a_bare_header() {
    let message = InputMessage { handle: 0, start: 5, inputs: vec![] };
    let packet = encode_message(&message).expect("valid message");
    assert_eq!(packet.len(), HEADER);
    assert_eq!(decode_message(&packet), Some(message));
}

#[test]
fn encode_refuses_a_handle_beyond_a_byte() {
    assert_eq!(encode_message(&InputMessage { handle: 256, start: 0, inputs: vec![1] }), None);
}

#[test]
fn encode_refuses_symbols_with_high_bits() {
    assert_eq!(encode_message(&InputMessage { handle: 0, start: 0, inputs: vec![1, 32] }), None);
    assert_eq!(encode_message(&InputMessage { handle: 0, start: 0, inputs: vec![128] }), None);
}

#[test]
fn decode_refuses_a_short_packet() {
    assert_eq!(decode_message(&[]), None);
    assert_eq!(decode_message(&[0, 0, 0, 0, 0, 0, 0, 0]), None);
}

#[test]
fn decode_refuses_symbols_with_high_bits() {
    assert_eq!(decode_message(&[0, 0, 0, 0, 0, 0, 0, 0, 0, 3, 64]), None);
    assert_eq!(decode_message(&[0, 0, 0, 0, 0, 0, 0, 0, 0, 32]), None);
}
