//! The sink that a node value is pushed into, piece by piece.

use crate::buffer::{as_slice31, contents31, new31, try_extend31};
use crate::hashing::{
    absorbed, blake2b_digest, digest_len, feed_hasher, finish_hasher, new_hasher,
};
use crate::output::Output;
use arrayvec::ArrayVec;
use blake2_rfc::blake2b::Blake2b;
use vstd::prelude::*;

verus! {

/// The Merkle value of a node is defined as either the hash of the node value, or the node value
/// itself if it is shorter than 32 bytes and the node isn't the root.
///
/// This type serves as a helper to handle these situations. Rather than putting intermediary
/// values in buffers then hashing the node value as a whole, the elements of the node value are
/// pushed to this sink, which automatically switches to hashing if the value exceeds 31 bytes.
pub(crate) enum HashOrInline {
    Inline(ArrayVec<u8, 31>),
    Hasher(Blake2b),
}

impl View for HashOrInline {
    type V = Seq<u8>;

    /// All the bytes pushed so far.
    closed spec fn view(&self) -> Seq<u8> {
        match *self {
            HashOrInline::Inline(buffer) => contents31(buffer),
            HashOrInline::Hasher(hasher) => absorbed(hasher),
        }
    }
}

impl HashOrInline {
    /// Bytes kept as they are number at most 31, and a hasher gives digests of 32 bytes.
    pub(crate) open spec fn wf(self) -> bool {
        &&& self is Inline ==> self@.len() <= 31
        &&& self matches HashOrInline::Hasher(hasher) ==> digest_len(hasher) == 32
    }

    /// Creates an empty sink that hashes from the start.
    pub(crate) fn new_hasher() -> (sink: HashOrInline)
        ensures
            sink.wf(),
            sink is Hasher,
            sink@ == Seq::<u8>::empty(),
    {
        HashOrInline::Hasher(new_hasher(32))
    }

    /// Creates an empty sink that keeps the bytes as they are for as long as they fit.
    pub(crate) fn new_inline() -> (sink: HashOrInline)
        ensures
            sink.wf(),
            sink is Inline,
            sink@ == Seq::<u8>::empty(),
    {
        HashOrInline::Inline(new31())
    }

    /// Adds data to the node value. If this is a [`HashOrInline::Inline`] and the total size would
    /// go above 31 bytes, then the sink switches to a hasher.
    pub(crate) fn update(&mut self, data: &[u8])
        requires
            old(self).wf(),
            old(self)@.len() + data@.len() <= u64::MAX,
        ensures
            final(self).wf(),
            final(self)@ == old(self)@ + data@,
            (*final(self)) is Inline <==> (*old(self)) is Inline && final(self)@.len() <= 31,
    {
        match self {
            HashOrInline::Inline(buffer) => {
                if try_extend31(buffer, data).is_err() {
                    let mut hasher = new_hasher(32);
                    feed_hasher(&mut hasher, as_slice31(buffer));
                    feed_hasher(&mut hasher, data);
                    *self = HashOrInline::Hasher(hasher);
                }
            },
            HashOrInline::Hasher(hasher) => {
                feed_hasher(hasher, data);
            },
        }
    }

    /// Turns the bytes pushed so far into a Merkle value.
    pub(crate) fn finalize(self) -> (output: Output)
        requires
            self.wf(),
        ensures
            output@ == (if self is Inline {
                self@
            } else {
                blake2b_digest(32, Seq::<u8>::empty(), self@)
            }),
            self is Hasher ==> output@.len() == 32,
            self is Inline ==> output@.len() <= 31,
    {
        match self {
            HashOrInline::Inline(buffer) => {
                Output::from_inline(buffer)
            },
            HashOrInline::Hasher(hasher) => Output::from_digest(finish_hasher(hasher)),
        }
    }
}

} // verus!
