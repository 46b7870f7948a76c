//! What a node value and a Merkle value are, byte for byte.
//!
//! A key is a sequence of nibbles, each of them below 16. The children of a node are a sequence of
//! sixteen optional Merkle values.

use crate::hashing::blake2b_digest;
use crate::nibble::Nibble;
use crate::output::Output;
use crate::scale::compact;
use vstd::arithmetic::power2::pow2;
use vstd::prelude::*;

verus! {

/// Version number of the storage trie entries.
#[derive(Debug, Clone, Copy, PartialEq, Eq, Hash)]
pub enum TrieEntryVersion {
    /// Stored values are always part of the node value.
    V0,
    /// Stored values of 33 bytes or more are replaced with their hash in the node value.
    V1,
}

/// The form in which the value of a node in the storage enters the node value.
#[derive(Debug)]
pub enum StoredValue<TBytes> {
    /// The node has no value in the storage.
    Absent,
    /// The value itself.
    Inline(TBytes),
    /// The hash of the value, made of 32 bytes.
    Hashed(TBytes),
}

impl<'a> View for StoredValue<&'a [u8]> {
    type V = StoredValue<Seq<u8>>;

    open spec fn view(&self) -> StoredValue<Seq<u8>> {
        match *self {
            StoredValue::Absent => StoredValue::Absent,
            StoredValue::Inline(value) => StoredValue::Inline(value@),
            StoredValue::Hashed(digest) => StoredValue::Hashed(digest@),
        }
    }
}

impl StoredValue<Seq<u8>> {
    /// The bytes of the value or of its hash, none if there is no value.
    pub open spec fn payload(self) -> Seq<u8> {
        match self {
            StoredValue::Absent => seq![],
            StoredValue::Inline(value) => value,
            StoredValue::Hashed(digest) => digest,
        }
    }
}

/// The values of a sequence of nibbles.
pub open spec fn nibble_values(nibbles: Seq<Nibble>) -> Seq<u8> {
    nibbles.map_values(|nibble: Nibble| nibble@)
}

/// The bytes of each Merkle value in a list of children.
pub open spec fn children_bytes(children: Seq<Option<&Output>>) -> Seq<Option<Seq<u8>>> {
    children.map_values(
        |child: Option<&Output>|
            match child {
                Some(merkle_value) => Some(merkle_value@),
                None => None,
            },
    )
}

/// Whether there is a child at any index.
pub open spec fn has_children(children: Seq<Option<Seq<u8>>>) -> bool {
    exists|i: int| 0 <= i < children.len() && children[i] is Some
}

/// The type of the node in the most significant bits of the first byte of the header, and the
/// greatest number that fits in its other bits.
pub open spec fn header_kind(stored_value: StoredValue<Seq<u8>>, has_children: bool) -> (u8, u8) {
    match (stored_value, has_children) {
        (StoredValue::Absent, false) => (0b00000000, 63),
        (StoredValue::Inline(_), false) => (0b01000000, 63),
        (StoredValue::Hashed(_), false) => (0b00100000, 31),
        (StoredValue::Absent, true) => (0b10000000, 63),
        (StoredValue::Inline(_), true) => (0b11000000, 63),
        (StoredValue::Hashed(_), true) => (0b00010000, 15),
    }
}

/// The part of a key length that doesn't fit in the first byte of the header: as many bytes of
/// value 255 as can be taken from it while more than 255 is left, then what is left.
pub open spec fn length_tail(length: nat) -> Seq<u8>
    decreases length,
{
    if length > 255 {
        seq![255u8] + length_tail((length - 255) as nat)
    } else {
        seq![length as u8]
    }
}

/// The header of a node of the given kind whose key has the given length.
pub open spec fn header(kind: (u8, u8), key_len: nat) -> Seq<u8> {
    if key_len < kind.1 {
        seq![(kind.0 + key_len) as u8]
    } else {
        seq![(kind.0 + kind.1) as u8] + length_tail((key_len - kind.1) as nat)
    }
}

/// Nibbles packed in pairs, the first one of each pair in the most significant bits.
pub open spec fn packed_pairs(key: Seq<u8>) -> Seq<u8> {
    Seq::new(key.len() / 2, |i: int| (16 * key[2 * i] + key[2 * i + 1]) as u8)
}

/// The nibbles of a key packed in bytes. If there is an odd number of them, the first one gets a
/// byte of its own.
pub open spec fn packed_key(key: Seq<u8>) -> Seq<u8> {
    if key.len() % 2 == 1 {
        seq![key[0]] + packed_pairs(key.skip(1))
    } else {
        packed_pairs(key)
    }
}

/// The number whose bit `i` tells whether there is a child at index `i`, for the first `count`
/// indices.
pub open spec fn children_bits(children: Seq<Option<Seq<u8>>>, count: nat) -> nat
    decreases count,
{
    if count == 0 {
        0
    } else {
        let bits = children_bits(children, (count - 1) as nat);
        if children[count - 1] is Some {
            bits + pow2((count - 1) as nat)
        } else {
            bits
        }
    }
}

/// The bitmap of the children in two bytes, absent if there isn't any child.
pub open spec fn children_bitmap(children: Seq<Option<Seq<u8>>>) -> Seq<u8> {
    if has_children(children) {
        let bits = children_bits(children, children.len());
        seq![(bits % 256) as u8, (bits / 256) as u8]
    } else {
        seq![]
    }
}

/// Bytes preceded by their length.
pub open spec fn length_prefixed(bytes: Seq<u8>) -> Seq<u8> {
    compact(bytes.len()) + bytes
}

/// The stored value as it appears in the node value.
pub open spec fn stored_value_bytes(stored_value: StoredValue<Seq<u8>>) -> Seq<u8> {
    match stored_value {
        StoredValue::Absent => seq![],
        StoredValue::Inline(value) => length_prefixed(value),
        StoredValue::Hashed(digest) => digest,
    }
}

/// The Merkle values of the children from index `start` on, each preceded by its length.
pub open spec fn children_values(children: Seq<Option<Seq<u8>>>, start: int) -> Seq<u8>
    decreases children.len() - start,
{
    if start >= children.len() {
        seq![]
    } else {
        let rest = children_values(children, start + 1);
        match children[start] {
            Some(merkle_value) => length_prefixed(merkle_value) + rest,
            None => rest,
        }
    }
}

/// The node value of a node.
pub open spec fn node_value(
    key: Seq<u8>,
    children: Seq<Option<Seq<u8>>>,
    stored_value: StoredValue<Seq<u8>>,
) -> Seq<u8> {
    header(header_kind(stored_value, has_children(children)), key.len()) + packed_key(key)
        + children_bitmap(children) + stored_value_bytes(stored_value) + children_values(
        children,
        0,
    )
}

/// The hash that the trie uses: an unkeyed BLAKE2b digest of 32 bytes.
pub open spec fn trie_hash(bytes: Seq<u8>) -> Seq<u8> {
    blake2b_digest(32, Seq::empty(), bytes)
}

/// The form in which a value enters the node value under the given version.
pub open spec fn stored_form(
    stored_value: Option<Seq<u8>>,
    version: TrieEntryVersion,
) -> StoredValue<Seq<u8>> {
    match stored_value {
        None => StoredValue::Absent,
        Some(value) => if version is V1 && value.len() >= 33 {
            StoredValue::Hashed(trie_hash(value))
        } else {
            StoredValue::Inline(value)
        },
    }
}

/// The Merkle value of a node with the given node value.
pub open spec fn merkle_value(is_root: bool, node_value: Seq<u8>) -> Seq<u8> {
    if is_root || node_value.len() >= 32 {
        trie_hash(node_value)
    } else {
        node_value
    }
}

} // verus!
