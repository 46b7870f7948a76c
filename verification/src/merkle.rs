//! The calculation of a Merkle value.

use crate::encode::{
    any_child, push_children_bitmap, push_children_values, push_header, push_key, push_stored_value,
};
use crate::hashing::hash;
use crate::lemmas::lemma_no_children_values;
use crate::model::{
    children_bytes, merkle_value, nibble_values, node_value, stored_form, StoredValue,
    TrieEntryVersion,
};
use crate::nibble::Nibble;
use crate::output::Output;
use crate::sink::HashOrInline;
use vstd::prelude::*;

verus! {

/// Information about a node whose Merkle value is to be calculated.
///
/// The documentation here assumes that you already know how the trie works.
pub struct Config<TChIter, TPKey, TVal> {
    /// Type of node.
    pub ty: NodeTy<TPKey>,
    /// The Merkle values of the 16 possible children of the node. `None` if there is no child at
    /// this index.
    pub children: TChIter,
    /// Value of the node in the storage.
    pub stored_value: Option<TVal>,
    /// Version to use for the encoding.
    ///
    /// Some input will lead to the same output no matter the version, but some other input will
    /// produce a different output.
    pub version: TrieEntryVersion,
}

/// Type of node whose node value is to be calculated.
#[derive(Debug)]
pub enum NodeTy<TPKey> {
    /// Node is the root node of the trie.
    Root {
        /// Key of the node, as nibbles. This is the longest prefix shared by all the keys in the
        /// trie.
        key: TPKey,
    },
    /// Node is not the root node of the trie.
    NonRoot {
        /// Partial key of the node, as nibbles.
        ///
        /// For reminder, the key of non-root nodes is made of three parts:
        ///
        /// - The parent's key. Irrelevant when calculating the node's value.
        /// - The child index, one single nibble indicating which child we are relative to the
        ///   parent. Irrelevant when calculating the node's value.
        /// - The partial key.
        ///
        partial_key: TPKey,
    },
}

impl<'a> NodeTy<&'a [Nibble]> {
    /// The values of the nibbles of the key, or of the partial key if the node isn't the root.
    pub open spec fn key_values(self) -> Seq<u8> {
        match self {
            NodeTy::Root { key } => nibble_values(key@),
            NodeTy::NonRoot { partial_key } => nibble_values(partial_key@),
        }
    }
}

impl<'a, 'b> Config<&'a [Option<&'b Output>], &'a [Nibble], &'a [u8]> {
    /// The bytes of the stored value, if there is one.
    pub open spec fn stored_bytes(self) -> Option<Seq<u8>> {
        match self.stored_value {
            Some(value) => Some(value@),
            None => None,
        }
    }

    /// The node value of the node.
    pub open spec fn node_value(self) -> Seq<u8> {
        node_value(
            self.ty.key_values(),
            children_bytes(self.children@),
            stored_form(self.stored_bytes(), self.version),
        )
    }

    /// The Merkle value of the node.
    pub open spec fn merkle_value(self) -> Seq<u8> {
        merkle_value(self.ty is Root, self.node_value())
    }
}

/// Calculates the Merkle value of a node given the information about this node.
///
/// There must be sixteen entries in `config.children`. No slice is longer than `isize::MAX` bytes,
/// so that a node value is never too long to be hashed.
///
/// A node that has neither a stored value nor a child is expected to be the root of an empty trie,
/// with an empty key.
pub fn calculate_merkle_value<'a, 'b>(
    config: Config<&'a [Option<&'b Output>], &'a [Nibble], &'a [u8]>,
) -> (output: Output)
    requires
        config.children@.len() == 16,
        config.ty.key_values().len() <= isize::MAX,
        config.stored_value matches Some(value) ==> value@.len() <= isize::MAX,
    ensures
        output@ == config.merkle_value(),
        config.ty is Root || config.node_value().len() >= 32 ==> output@.len() == 32,
        1 <= output@.len() <= 32,
        stored_form(config.stored_bytes(), config.version) matches StoredValue::Hashed(digest)
            ==> digest.len() == 32,
{
    match config.stored_value {
        None => calculate_with_stored_value(config.ty, config.children, StoredValue::Absent),
        Some(value) => {
            if matches!(config.version, TrieEntryVersion::V1) && value.len() >= 33 {
                let no_key: [u8; 0] = [];
                assert(no_key@ =~= Seq::<u8>::empty());
                let digest = hash(32, &no_key, value);
                calculate_with_stored_value(
                    config.ty,
                    config.children,
                    StoredValue::Hashed(digest.as_slice()),
                )
            } else {
                calculate_with_stored_value(config.ty, config.children, StoredValue::Inline(value))
            }
        },
    }
}

/// Calculates the Merkle value of a node whose stored value is already in the form in which it
/// enters the node value.
pub fn calculate_with_stored_value<'a, 'b>(
    ty: NodeTy<&'a [Nibble]>,
    children: &'a [Option<&'b Output>],
    stored_value: StoredValue<&[u8]>,
) -> (output: Output)
    requires
        children@.len() == 16,
        ty.key_values().len() <= isize::MAX,
        stored_value@.payload().len() <= isize::MAX,
    ensures
        output@ == merkle_value(
            ty is Root,
            node_value(ty.key_values(), children_bytes(children@), stored_value@),
        ),
        ty is Root || node_value(
            ty.key_values(),
            children_bytes(children@),
            stored_value@,
        ).len() >= 32 ==> output@.len() == 32,
        1 <= output@.len() <= 32,
{
    let has_children = any_child(children);
    let mut sink = if matches!(ty, NodeTy::Root { .. }) {
        HashOrInline::new_hasher()
    } else {
        HashOrInline::new_inline()
    };
    // For node value calculation purposes, the root key is treated the same as the partial key.
    let key = match ty {
        NodeTy::Root { key } => key,
        NodeTy::NonRoot { partial_key } => partial_key,
    };
    push_header(&mut sink, &stored_value, has_children, key.len());
    push_key(&mut sink, key);
    if has_children {
        push_children_bitmap(&mut sink, children);
    }
    push_stored_value(&mut sink, &stored_value);
    if has_children {
        push_children_values(&mut sink, children);
    } else {
        proof {
            lemma_no_children_values(children_bytes(children@), 0);
        }
    }
    assert(sink@ =~= node_value(ty.key_values(), children_bytes(children@), stored_value@));
    sink.finalize()
}

} // verus!
