//! What a player's program makes of the messages the server sends, and the
//! answer it sends back.

use vstd::prelude::*;

use crate::serialization::{
    spec_carta_bytes, spec_tag_deserialize, spec_transfer_game_deserialize, ClientStatement,
    InvalidTransferGame, InvalidTransferTag, TransferGame, TransferTag,
};

verus! {

/// A message from the server, read by its tag.
#[derive(Debug)]
pub enum ServerMessage {
    /// No bytes came: the server is gone.
    Closed,
    /// The first byte is not a tag.
    UnknownTag(InvalidTransferTag),
    /// Text to show.
    Info(Vec<u8>),
    /// Text to show.
    Response(Vec<u8>),
    /// The server asks for a card; the text says so.
    Prompt(Vec<u8>),
    /// A new state, or why its bytes do not read.
    State(Result<TransferGame, InvalidTransferGame>),
}

/// Reads the message `m` (the bytes received without the end byte): its
/// first byte is the tag, the rest the payload.
pub fn read_server_message(m: &[u8]) -> (r: ServerMessage)
    ensures
        m@.len() == 0 ==> r is Closed,
        m@.len() > 0 ==> {
            let rest = m@.subrange(1, m@.len() as int);
            match spec_tag_deserialize(m@.subrange(0, 1)) {
                Err(e) => r == ServerMessage::UnknownTag(e),
                Ok(TransferTag::Info) => r matches ServerMessage::Info(p) && p@ == rest,
                Ok(TransferTag::Response) => r matches ServerMessage::Response(p) && p@ == rest,
                Ok(TransferTag::Prompt) => r matches ServerMessage::Prompt(p) && p@ == rest,
                Ok(TransferTag::State) => r matches ServerMessage::State(s) && match (
                    s,
                    spec_transfer_game_deserialize(rest),
                ) {
                    (Ok(g), Ok(v)) => g@ == v,
                    (Err(e), Err(f)) => e == f,
                    _ => false,
                },
            }
        },
{
    if m.len() == 0 {
        return ServerMessage::Closed;
    }
    let tag = &m[0..1];
    let rest = &m[1..m.len()];
    match TransferTag::deserialize(tag) {
        Err(e) => ServerMessage::UnknownTag(e),
        Ok(TransferTag::Info) => ServerMessage::Info(vstd::slice::slice_to_vec(rest)),
        Ok(TransferTag::Response) => ServerMessage::Response(vstd::slice::slice_to_vec(rest)),
        Ok(TransferTag::Prompt) => ServerMessage::Prompt(vstd::slice::slice_to_vec(rest)),
        Ok(TransferTag::State) => ServerMessage::State(TransferGame::deserialize(rest)),
    }
}

/// The payload that answers a prompt with the card at `index` of the hand
/// in `state`.
pub fn answer_for(state: &TransferGame, index: usize) -> (r: Vec<u8>)
    requires
        index < state.your_cards@.len(),
    ensures
        r@ == spec_carta_bytes(state.your_cards@[index as int]),
{
    ClientStatement { played_card: state.your_cards[index] }.serialize()
}

} // verus!
