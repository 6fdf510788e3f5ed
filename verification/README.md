# mux

Sessions that multiplex HTTP connections over shared streams, verified with Verus.

- `src/` is the library. A connection is told what its socket did and says what is to be done next;
  a session says which connection is to be told. Each function has its contract, and the laws of the
  library are the proof functions whose names start with `law_`.
- `src/stream.rs` holds the calls into `kawa`, which stores the bytes of a stream and parses and
  prints HTTP/1. What they are taken to do is written in their contracts.
- `app/` puts the library on `mio` sockets.
- `tests/` runs the library.
