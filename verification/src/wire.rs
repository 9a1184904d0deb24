//! The bytes of an input message.
//!
//! A packet is the player handle in one byte, the first frame as eight bytes,
//! least significant first, and then one symbol per frame. A symbol on the
//! wire has its three high bits clear.

use crate::input::INPUT_MASK;
use crate::model::InputMessageView;
use crate::rollback::InputMessage;
use vstd::bytes::{
    lemma_auto_spec_u64_to_from_le_bytes, spec_u64_from_le_bytes, spec_u64_to_le_bytes,
    u64_from_le_bytes, u64_to_le_bytes,
};
use vstd::prelude::*;
use vstd::slice::slice_subrange;

verus! {

/// Number of bytes in front of the symbols.
pub const HEADER: usize = 9;

/// Whether every symbol has its three high bits clear.
pub open spec fn valid(symbols: Seq<u8>) -> bool {
    forall|i: int| 0 <= i < symbols.len() ==> #[trigger] symbols[i] <= INPUT_MASK
}

/// The packet of a message, for a message that has one: its handle fits in a
/// byte and its symbols are valid.
pub open spec fn spec_encode_message(message: InputMessageView) -> Option<Seq<u8>> {
    if message.handle <= u8::MAX && valid(message.inputs) {
        Some(
            seq![message.handle as u8] + spec_u64_to_le_bytes(message.start as u64)
                + message.inputs,
        )
    } else {
        None
    }
}

/// The message of a packet, for a packet that holds one: it has a whole
/// header, its first frame is one this machine can count to, and its symbols
/// are valid.
pub open spec fn spec_decode_message(packet: Seq<u8>) -> Option<InputMessageView> {
    if packet.len() >= HEADER && spec_u64_from_le_bytes(packet.subrange(1, HEADER as int))
        <= usize::MAX && valid(packet.skip(HEADER as int)) {
        Some(
            InputMessageView {
                handle: packet[0] as usize,
                start: spec_u64_from_le_bytes(packet.subrange(1, HEADER as int)) as usize,
                inputs: packet.skip(HEADER as int),
            },
        )
    } else {
        None
    }
}

fn all_valid(symbols: &[u8], from: usize) -> (all: bool)
    requires
        from <= symbols.len(),
    ensures
        all == valid(symbols@.skip(from as int)),
{
    let mut i: usize = from;
    while i < symbols.len()
        invariant
            from <= i <= symbols.len(),
            forall|k: int| from <= k < i ==> #[trigger] symbols@[k] <= INPUT_MASK,
        decreases symbols.len() - i,
    {
        if symbols[i] > INPUT_MASK {
            assert(symbols@.skip(from as int)[i - from] == symbols@[i as int]);
            return false;
        }
        i = i + 1;
    }
    assert forall|k: int| 0 <= k < symbols@.skip(from as int).len() implies #[trigger] symbols@.skip(
        from as int,
    )[k] <= INPUT_MASK by {
        assert(symbols@.skip(from as int)[k] == symbols@[from + k]);
    }
    true
}

/// Writes a message as a packet.
pub fn encode_message(message: &InputMessage) -> (packet: Option<Vec<u8>>)
    ensures
        packet.is_some() == spec_encode_message(message@).is_some(),
        packet.is_some() ==> packet.unwrap()@ == spec_encode_message(message@).unwrap(),
{
    if message.handle > 255 {
        return None;
    }
    if !all_valid(message.inputs.as_slice(), 0) {
        assert(message.inputs@.skip(0) =~= message.inputs@);
        return None;
    }
    assert(message.inputs@.skip(0) =~= message.inputs@);
    let mut packet: Vec<u8> = Vec::new();
    packet.push(message.handle as u8);
    let mut start = u64_to_le_bytes(message.start as u64);
    proof {
        lemma_auto_spec_u64_to_from_le_bytes();
    }
    packet.append(&mut start);
    let mut i: usize = 0;
    while i < message.inputs.len()
        invariant
            i <= message.inputs.len(),
            packet@ == seq![message.handle as u8] + spec_u64_to_le_bytes(message.start as u64)
                + message.inputs@.take(i as int),
        decreases message.inputs.len() - i,
    {
        packet.push(message.inputs[i]);
        assert(message.inputs@.take(i + 1) =~= message.inputs@.take(i as int).push(
            message.inputs@[i as int],
        ));
        assert(packet@ =~= seq![message.handle as u8] + spec_u64_to_le_bytes(message.start as u64)
            + message.inputs@.take(i + 1));
        i = i + 1;
    }
    assert(message.inputs@.take(message.inputs.len() as int) =~= message.inputs@);
    Some(packet)
}

/// Reads a packet as a message.
pub fn decode_message(packet: &[u8]) -> (message: Option<InputMessage>)
    ensures
        message.is_some() == spec_decode_message(packet@).is_some(),
        message.is_some() ==> message.unwrap()@ == spec_decode_message(packet@).unwrap(),
{
    if packet.len() < HEADER {
        return None;
    }
    let start = u64_from_le_bytes(slice_subrange(packet, 1, HEADER));
    if start > usize::MAX as u64 {
        return None;
    }
    if !all_valid(packet, HEADER) {
        return None;
    }
    let mut inputs: Vec<u8> = Vec::new();
    let mut i: usize = HEADER;
    while i < packet.len()
        invariant
            HEADER <= i <= packet.len(),
            inputs@ == packet@.subrange(HEADER as int, i as int),
        decreases packet.len() - i,
    {
        inputs.push(packet[i]);
        assert(packet@.subrange(HEADER as int, i + 1) =~= packet@.subrange(
            HEADER as int,
            i as int,
        ).push(packet@[i as int]));
        i = i + 1;
    }
    assert(packet@.subrange(HEADER as int, packet.len() as int) =~= packet@.skip(HEADER as int));
    Some(InputMessage { handle: packet[0] as usize, start: start as usize, inputs })
}

/// Reading a written message gives the message back.
pub proof fn decode_undoes_encode(message: InputMessageView)
    requires
        spec_encode_message(message).is_some(),
    ensures
        spec_decode_message(spec_encode_message(message).unwrap()) == Some(message),
{
    lemma_auto_spec_u64_to_from_le_bytes();
    let packet = spec_encode_message(message).unwrap();
    let start = spec_u64_to_le_bytes(message.start as u64);
    assert(packet.subrange(1, HEADER as int) =~= start);
    assert(packet.skip(HEADER as int) =~= message.inputs);
    assert(packet[0] == message.handle as u8);
}

/// Writing a read packet gives the packet back.
pub proof fn encode_undoes_decode(packet: Seq<u8>)
    requires
        spec_decode_message(packet).is_some(),
    ensures
        spec_encode_message(spec_decode_message(packet).unwrap()) == Some(packet),
{
    lemma_auto_spec_u64_to_from_le_bytes();
    let message = spec_decode_message(packet).unwrap();
    let start = packet.subrange(1, HEADER as int);
    assert(spec_u64_to_le_bytes(spec_u64_from_le_bytes(start)) == start);
    assert(seq![message.handle as u8] + start + message.inputs =~= packet);
}

} // verus!
