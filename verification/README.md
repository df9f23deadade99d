# bolt

The value encoding and the message framing of the Bolt protocol, verified with
Verus.

- `src/packstream/` writes and reads PackStream values. `wire.rs` says which
  bytes stand for a value and what bytes are read as; `serialize.rs` and
  `deserialize.rs` are held to it. `laws.rs`, `value.rs` and `writes.rs` prove
  what follows: what is written reads back, nothing shorter would, skipping goes
  past exactly one value, and writes append to each other.
- `src/protocol/` takes messages out of their chunks. `framing.rs` says, byte by
  byte, what a decoder makes of its input; `chunking.rs` is held to it. `laws.rs`
  proves that it does not matter how the input is cut up.
- `src/buf.rs` is the cursor that a reader reads from, over one buffer or over
  several segments.
- `src/bytes_spec.rs` states what is relied on in the `bytes` crate.
- `app/` adapts the library to the traits of other crates, floats to `f64`, and
  structure tags to a cast.

Floats are handed in and out as their IEEE 754 bits. Whether two buffers share
one allocation is not part of any contract; the tests look at it.
