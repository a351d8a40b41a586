# datagram_bench

A benchmark for QUIC datagrams. A client opens connections to a server and sends
datagrams over them, as fast as it can or at a given rate; the server counts what
comes in. Both print a line of counts every second.

- `src/` is the library: it decides what each task does next, keeps the counts and
  formats what is printed. All of it is verified with Verus.
- `tests/` runs the library with the crates it calls.
- `app/` holds the two programs, `client` and `server`: sockets, tasks, timers and
  the command line.

What the verification takes on trust stands in `src/duration.rs`, `src/text.rs`,
`src/transport.rs`, `src/tls.rs` and `src/handshake.rs`, each item with a comment that says what it claims
of the function it calls.
