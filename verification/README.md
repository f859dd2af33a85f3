# bear_island

The verified core of the Bear Island game, a Verus library.

- `src/framing.rs`: length-prefixed frames (eight big-endian length bytes, then the payload).
- `src/protocol.rs`: the messages between client and server.
- `src/room.rs`: room codes, room handles and the server's registry of rooms.
- `src/room_host.rs`: the room host's port search and the line in which it reports its port.
- `src/server.rs`: the server's decisions on a request.
- `src/client.rs`: how the client reads a room-creation reply, and its main menu.
- `src/game.rs`: the rule by which bears are dragged.

`app/` holds the programs around the library (server, room host, bevy client, raylib game
window), with the I/O, the threads, the floating-point geometry and the wincode encodings.
