# node_value

Calculation of the Merkle value of a node of a trie, given the information about this node. The
library is written in Rust and proved with Verus.

- `src/model.rs` says what a node value and a Merkle value are, byte for byte.
- `src/merkle.rs` holds `calculate_merkle_value`, whose result is proved to be that Merkle value.
  `src/encode.rs` pushes the pieces of a node value into the sink of `src/sink.rs`, which hashes
  them as soon as they no longer fit in 31 bytes.
- `src/output.rs`, `src/nibble.rs` and `src/scale.rs` hold Merkle values, nibbles and the SCALE
  compact encoding of lengths.
- `src/laws.rs` proves what holds of node values in general, foremost that a node value determines
  the node.
- `src/hashing.rs` and `src/buffer.rs` state what is trusted of the crates `blake2-rfc` and
  `arrayvec`.
- `app/` offers the calculation over iterators, and the standard traits that the verified types
  cannot have.

## A property of the header

The length of a key is written in the first byte of the header and, where it doesn't fit, in the
bytes that follow. A length that exceeds what fits in the first byte by a multiple of 255 ends with
a byte of value 255, as if more were to follow. A node with such a key can have the same node value
as a node with a longer key. The law that a node value determines the node therefore asks, where the
keys have different lengths, that the shorter key doesn't have such a length, or that the node value
shows by its own length that the key isn't longer.
