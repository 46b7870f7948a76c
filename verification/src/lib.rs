//! Calculation of the Merkle value of a node given the information about it.
//!
//! Use the [`calculate_merkle_value`] function to calculate the Merkle value. The [`Config`]
//! struct contains all the input required for the calculation.
//!
//! # Example
//!
//! ```
//! use node_value::{calculate_merkle_value, Config, Nibble, NodeTy, Output, TrieEntryVersion};
//!
//! let merkle_value = {
//!     // The example node whose value we calculate has two children.
//!     let foo = Output::from_bytes(b"foo");
//!     let bar = Output::from_bytes(b"bar");
//!     let mut children = [None; 16];
//!     children[2] = Some(&foo);
//!     children[10] = Some(&bar);
//!
//!     calculate_merkle_value(Config {
//!         ty: NodeTy::NonRoot {
//!             partial_key: &[
//!                 Nibble::try_from(8).unwrap(),
//!                 Nibble::try_from(12).unwrap(),
//!                 Nibble::try_from(1).unwrap(),
//!             ][..],
//!         },
//!         children: &children[..],
//!         stored_value: Some(&b"hello world"[..]),
//!         version: TrieEntryVersion::V1,
//!     })
//! };
//!
//! assert_eq!(
//!     merkle_value.as_ref(),
//!     &[
//!         195, 8, 193, 4, 4, 44, 104, 101, 108, 108, 111, 32, 119, 111, 114, 108, 100, 12,
//!         102, 111, 111, 12, 98, 97, 114
//!     ]
//! );
//! ```

mod buffer;
mod encode;
pub mod hashing;
pub mod laws;
mod lemmas;
mod merkle;
pub mod model;
mod nibble;
mod output;
pub mod reading;
pub mod scale;
mod sink;

pub use merkle::{calculate_merkle_value, calculate_with_stored_value, Config, NodeTy};
pub use model::{StoredValue, TrieEntryVersion};
pub use nibble::{Nibble, NibbleFromU8Error};
pub use output::Output;
