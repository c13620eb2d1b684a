# shrimpwisp

A Wisp v2.1 proxy server whose protocol core is verified with Verus.

`src/` is the library. It holds everything that the server decides, as functions on plain values
with contracts that Verus proves:

- `protocol`: Wisp packets, their parsing and building, and that one undoes the other.
- `ws`: WebSocket frames in both directions, and the HTTP request that precedes them.
- `proxy`: streams, the table that finds them, cancellation, and what is still owed to a backend.
- `server`: configuration, command line, filters, addresses, credentials, resolved names, accepted
  connections, timers, the handshake, the dispatcher that ties a connection's streams together, and
  the engine that says what a connection does about each event and what its client is told.
- `wire`, `text`, `net`, `clock`, `buffers`: the pieces that the rest is made of, and what is relied
  on of the `bytes` crate and of address parsing.

The library never touches a socket or a clock. Where a write is due it says so, and the caller
reports what came of it; time comes in as a number of nanoseconds.

`app/` is the server around it: argument parsing, logging, threads, sockets, timers and HTTP.

`tests/` runs the library on concrete values.

The laws that relate several functions, such as that no byte of a stream is lost, repeated or
reordered between a client and its backend, stand as public proof functions beside the functions
they speak of.
