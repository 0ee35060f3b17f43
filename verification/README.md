# websocket_common

A client-side pool of WebSocket connections, for requests with replies and for
streams of messages.

- `src/` decides: which connection is used, what is remembered about it, what a
  frame, a failure or the end of a connection leads to, which streams are
  followed where, and what is sent. Every function states what it does and is
  proved to do so by Verus. `laws.rs` and `stream_laws.rs` state what holds
  across calls.
- `app/` acts: sockets, timers, channels and callbacks on top of tokio. It
  carries out what `src/` decides and reports what came of it. The library
  knows writers, handlers, callbacks and awaited replies by number.
- `tests/` runs the library on concrete values.

JSON is read and written by `serde_json`, compressed messages are read by
`flate2`, and requests to connect and errors of the transport are those of
`tokio-tungstenite`. What the proofs rely on about these crates stands in
`json.rs`, `inflate.rs`, `handshake.rs` and `failure.rs`.
