# game_core

The core of a small multiplayer game over QUIC, verified with Verus.

A client and the server talk over one bidirectional stream. Every message on it
is a frame: a delimiter, the length of the body as a big-endian `u32`, and the
body, which is the `rkyv` archive of the message.

- `src/` is the verified library.
  - `message`, `archive`, `frame`: the messages and their form on the wire.
  - `receive`, `send`, `accept`: the decisions of the tasks that read and write
    the stream and that admit players. A task performs a phase, tells how it
    turned out, and is told the next phase.
  - `stream`, `arrival`: what the receiving task makes of a whole stream,
    whatever the chunks in which it arrives.
  - `delivery`: what one end sends, the other end receives.
  - `session`, `admission`: the two tasks of a connection side by side, and the
    connections of the server side by side.
  - `player`, `channels`, `client`, `config`: player ids, the server's channels
    to its players, the client's handle on its connection, and the settings.
- `app/` performs the phases: QUIC, channels, tasks and the Godot extension.
- `tests/` runs the library on concrete values.
