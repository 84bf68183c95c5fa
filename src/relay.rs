use vstd::prelude::*;

use vstd::bytes::{
    lemma_auto_spec_u64_to_from_le_bytes, spec_u64_from_le_bytes, spec_u64_to_le_bytes, u64_from_le_bytes,
    u64_to_le_bytes,
};

use crate::action::BridgeAction;
use crate::naming::append_bytes;

verus! {

/// The direction in which a bridge's local adapter moves messages.
#[derive(Clone, Copy, Debug, PartialEq, Eq, Structural)]
pub enum RelayDirection {
    /// Every item received from the stream is published locally.
    InjectLocally,
    /// Every local publication is written to the stream.
    ShipOutward,
}

/// The adapter direction of a bridge; a topic without action has no bridge.
pub open spec fn direction_of(action: BridgeAction) -> Option<RelayDirection> {
    match action {
        BridgeAction::PublishBridge => Some(RelayDirection::InjectLocally),
        BridgeAction::SubscribeBridge => Some(RelayDirection::ShipOutward),
        BridgeAction::NoOp => None,
    }
}

/// Which way the local adapter of a bridge with this action runs.
pub fn relay_direction(action: BridgeAction) -> (r: Option<RelayDirection>)
    ensures
        r == direction_of(action),
{
    match action {
        BridgeAction::PublishBridge => Some(RelayDirection::InjectLocally),
        BridgeAction::SubscribeBridge => Some(RelayDirection::ShipOutward),
        BridgeAction::NoOp => None,
    }
}

/// Number of bytes in a frame header.
pub const FRAME_HEADER_LEN: usize = 8;

/// One message as it travels on the stream: its length as eight
/// little-endian bytes, then its bytes.
pub open spec fn frame_of(payload: Seq<u8>) -> Seq<u8> {
    spec_u64_to_le_bytes(payload.len() as u64) + payload
}

/// Frames one message for the stream.
pub fn encode_frame(payload: &[u8]) -> (r: Vec<u8>)
    ensures
        r@ == frame_of(payload@),
{
    let mut out = u64_to_le_bytes(payload.len() as u64);
    append_bytes(&mut out, payload);
    out
}

/// The payload length a frame header announces; `None` unless the header
/// has exactly eight bytes.
pub fn frame_length(header: &[u8]) -> (r: Option<u64>)
    ensures
        r.is_some() == (header@.len() == FRAME_HEADER_LEN),
        r.is_some() ==> r.unwrap() == spec_u64_from_le_bytes(header@),
{
    if header.len() == FRAME_HEADER_LEN {
        Some(u64_from_le_bytes(header))
    } else {
        None
    }
}

/// Reading a frame back: its header announces the payload's length, and the
/// payload follows the header, so each message keeps its boundaries.
pub proof fn lemma_frame_round_trip(payload: Seq<u8>)
    requires
        payload.len() <= u64::MAX,
    ensures
        frame_of(payload).len() == FRAME_HEADER_LEN + payload.len(),
        spec_u64_from_le_bytes(frame_of(payload).subrange(0, FRAME_HEADER_LEN as int)) == payload.len(),
        frame_of(payload).subrange(FRAME_HEADER_LEN as int, frame_of(payload).len() as int) == payload,
{
    lemma_auto_spec_u64_to_from_le_bytes();
    let h = spec_u64_to_le_bytes(payload.len() as u64);
    assert(h.len() == 8);
    assert(frame_of(payload).subrange(0, 8) =~= h);
    assert(frame_of(payload).subrange(8, frame_of(payload).len() as int) =~= payload);
}

} // verus!
