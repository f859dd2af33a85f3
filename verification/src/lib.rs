//! Verified core of the Bear Island game: the wire framing shared by the
//! client and the server, the message types, the room registry of the
//! server, the port protocol of the room host, and the decisions of the
//! client's menu and of the bear dragging.

pub mod client;
pub mod framing;
pub mod game;
pub mod protocol;
pub mod room;
pub mod room_host;
pub mod server;
pub mod random;
mod text;
