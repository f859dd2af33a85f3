//! The messages that the client and the server exchange.

use vstd::prelude::*;

verus! {

/// A request from a client to the server.
#[derive(Debug, Clone, PartialEq, Eq)]
pub enum ClientMessage {
    /// Asks the server to start a new room.
    CreateRoom,
    /// Asks the server where the room with this code is.
    JoinRoom { code: String },
}

/// Why a client could not join a room.
#[derive(Debug, Clone, Copy, PartialEq, Eq)]
pub enum JoinError {
    RoomFull,
    RoomDoesntExist,
}

/// A socket address: an IP address (version 4 or 6) and a port.
#[derive(Debug, Clone, Copy, PartialEq, Eq)]
pub enum SocketAddress {
    V4 { octets: [u8; 4], port: u16 },
    V6 { segments: [u16; 8], port: u16, flowinfo: u32, scope_id: u32 },
}

/// A reply from the server to a client.
#[derive(Debug, Clone, PartialEq, Eq)]
pub enum ServerMessage {
    /// A room was started; clients join it with this code.
    RoomCreated { code: String },
    /// No room could be started, for the reason given.
    RoomCreationError { error: String },
    /// The room asked for listens at this address.
    RoomFound { address: SocketAddress },
    /// The room asked for cannot be joined.
    RoomJoinError { reason: JoinError },
}

} // verus!
