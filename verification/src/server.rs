//! The server's decisions on a client's request.

use vstd::prelude::*;
use crate::protocol::{ClientMessage, ServerMessage};

verus! {

/// What the server does with a request it has decoded.
#[derive(Debug, Clone, Copy, PartialEq, Eq)]
pub enum ServerAction {
    /// Start a room host, file the new room and tell the client its code.
    CreateRoom,
    /// Send nothing back: the server has no handling for this request.
    NoReply,
}

/// The server's action on a request: it starts a room on `CreateRoom` and
/// has no handling for `JoinRoom`.
pub fn dispatch(message: &ClientMessage) -> (action: ServerAction)
    ensures
        action == (match message {
            ClientMessage::CreateRoom => ServerAction::CreateRoom,
            ClientMessage::JoinRoom { .. } => ServerAction::NoReply,
        }),
{
    match message {
        ClientMessage::CreateRoom => ServerAction::CreateRoom,
        ClientMessage::JoinRoom { .. } => ServerAction::NoReply,
    }
}

/// The reply to a room creation: the room's code when a room was started,
/// else the text of the error that stopped it.
pub open spec fn spec_room_creation_response(outcome: Result<String, String>) -> ServerMessage {
    match outcome {
        Ok(code) => ServerMessage::RoomCreated { code },
        Err(error) => ServerMessage::RoomCreationError { error },
    }
}

/// The reply to a room creation: the room's code when a room was started,
/// else the text of the error that stopped it.
pub fn room_creation_response(outcome: Result<String, String>) -> (reply: ServerMessage)
    ensures
        reply == spec_room_creation_response(outcome),
{
    match outcome {
        Ok(code) => ServerMessage::RoomCreated { code },
        Err(error) => ServerMessage::RoomCreationError { error },
    }
}

} // verus!
