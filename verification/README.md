# embassy-nats

A client of the NATS protocol for embassy, whose logic is verified with Verus.

- `src/` is the library: the buffers, the framer that cuts a stream into frames, the commands that
  are written, the subscriptions, and the steps of a connection. Every function has a contract, and
  `src/laws.rs` and `src/laws/` prove what holds over many calls: of a whole stream however it is
  cut, of the longest messages and their buffers, of subscriptions, of how a connection comes to
  stand.
- `app/` connects the library to a socket of `embassy-net`, to the channels of `embassy-sync` and to
  JSON.
- `tests/` runs the library on concrete bytes.

What is trusted rather than proved is marked where it stands: the calls into `heapless` in
`src/bounded.rs`, `char::is_whitespace` in `src/text.rs`, `core::str::from_utf8` in `src/framer.rs`,
and the declarations of outside error types in `src/error.rs`.
