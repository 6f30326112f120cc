# engine_io

A verified implementation of the engine.io and socket.io protocols: their
packet and payload encodings, and the state machines of their servers.

- `src/engine_io_parser`: engine.io packets and payloads, in text and in
  binary, with the round trips between encoding and decoding proved
  (`laws.rs`).
- `src/engine_io_server`: requests, transports, sockets (a state machine that
  hands back the actions for its caller to perform) and the server's registry
  of clients.
- `src/engine_io_warp`: the decisions of an HTTP adapter: routing and
  decoding polling requests, answering them, and turning websocket messages
  into packets and back.
- `src/socket_io_parser`: socket.io packet texts, binary attachments, and
  the round trip between taking attachments out and putting them back.
- `src/socket_io_server`: namespaces, connections and the decisions taken on
  the messages of the engine.io layer.
- `src/engine_io`: the types of the first engine.io server interface.
- `src/digits.rs`, `src/strings.rs`, `src/string_map.rs`: numbers in text,
  strings, and string maps and sets.
- `app/`: what runs around the library: the clock and random bytes (which
  the library takes as arguments), and what needs `serde_json` (JSON values,
  the socket.io decoder and encoder, the serialisable error message).

Calls into `base64`, `uuid`, `regex` and `std` that Verus cannot read are
wrapped in small functions whose contracts state what those crates
document.
