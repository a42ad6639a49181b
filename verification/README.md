# y_sync

The y-sync protocol, verified with Verus: how peers keep a shared `yrs` document and
the awareness of each other in step.

- `src/protocol.rs`: the steps of the protocol and the errors in response to messages.
- `src/message.rs`, `src/round_trip.rs`: the messages, their byte format, and the proof
  that a message survives the way through the encoder and the decoder.
- `src/reader.rs`: several messages in one payload.
- `src/awareness.rs`, `src/awareness_update.rs`: the states of the clients, how they
  travel and how they are merged.
- `src/encoding.rs`, `src/state_vector.rs`, `src/document.rs`: what is assumed of `yrs`,
  and the byte formats underneath the messages.
- `app/`: printable errors and an iterator, for callers in ordinary Rust.

Encoding and decoding go through the version 1 encoder and decoder of `yrs`. Strings
that are not UTF-8 are refused.
