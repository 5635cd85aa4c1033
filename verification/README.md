# battleship

A two-player battleship game over TCP, with the game's rules and decisions
verified with Verus.

- `src/` — the verified library
  - `protocol`: the messages, how fields are drawn, and the framing of
    messages on the wire (a 4-byte big-endian length, then the message).
  - `fleet`: the rules a submitted layout must meet (ship lengths, spacing,
    the required fleet), the facts behind the board check, and that a
    valid layout occupies eighteen fields, so that turning over any one
    field makes it invalid.
  - `symmetry`: validity does not change when the board is transposed or
    mirrored.
  - `session`: the board check and conversion, and the state machine of one
    client's session on the server.
  - `manager`: the matchmaking lobby.
  - `game`: the server's board and the messages a game receives.
  - `server`: the connection limit.
  - `client`: the submitted layout, reading a typed shot, the automatic
    player's random shot, where the boards
    are drawn, and what the client does with each server message.
- `app/` — the programs (`battleship server [--daemonize]`,
  `battleship client [--automatic]`): sockets,
  tasks, terminal output and the bincode encoding of messages.
- `tests/` — tests of the library.
