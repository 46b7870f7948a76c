//! Merkle values.

use crate::buffer::{as_slice31, as_slice32, contents31, contents32, new32, try_extend32};
use arrayvec::ArrayVec;
use vstd::prelude::*;

verus! {

/// Output of the calculation.
pub struct Output {
    inner: OutputInner,
}

enum OutputInner {
    Inline(ArrayVec<u8, 31>),
    Digest(Vec<u8>),
    Bytes(ArrayVec<u8, 32>),
}

impl View for Output {
    type V = Seq<u8>;

    closed spec fn view(&self) -> Seq<u8> {
        match self.inner {
            OutputInner::Inline(buffer) => contents31(buffer),
            OutputInner::Digest(digest) => digest@,
            OutputInner::Bytes(buffer) => contents32(buffer),
        }
    }
}

impl Output {
    /// No Merkle value is longer than 32 bytes.
    #[verifier::type_invariant]
    spec fn fits(self) -> bool {
        self@.len() <= 32
    }

    /// Builds an [`Output`] from a slice of at most 32 bytes.
    pub fn from_bytes(bytes: &[u8]) -> (output: Output)
        requires
            bytes@.len() <= 32,
        ensures
            output@ == bytes@,
    {
        let mut buffer = new32();
        try_extend32(&mut buffer, bytes).unwrap();
        Output { inner: OutputInner::Bytes(buffer) }
    }

    /// Wraps the bytes of a node value that is short enough to be its own Merkle value.
    pub(crate) fn from_inline(buffer: ArrayVec<u8, 31>) -> (output: Output)
        requires
            contents31(buffer).len() <= 31,
        ensures
            output@ == contents31(buffer),
    {
        Output { inner: OutputInner::Inline(buffer) }
    }

    /// Wraps the hash of a node value.
    pub(crate) fn from_digest(digest: Vec<u8>) -> (output: Output)
        requires
            digest@.len() <= 32,
        ensures
            output@ == digest@,
    {
        Output { inner: OutputInner::Digest(digest) }
    }

    /// Copies the bytes of a Merkle value of exactly 32 bytes.
    pub fn into_array(self) -> (array: [u8; 32])
        requires
            self@.len() == 32,
        ensures
            array@ == self@,
    {
        let bytes = self.as_ref();
        let mut array = [0u8; 32];
        for i in 0..32usize
            invariant
                bytes@.len() == 32,
                forall|j: int| 0 <= j < i ==> array@[j] == bytes@[j],
        {
            array[i] = bytes[i];
        }
        assert(array@ =~= bytes@);
        array
    }
}

impl AsRef<[u8]> for Output {
    fn as_ref(&self) -> (bytes: &[u8])
        ensures
            bytes@ == self@,
            bytes@.len() <= 32,
    {
        proof {
            use_type_invariant(self);
        }
        match &self.inner {
            OutputInner::Inline(buffer) => as_slice31(buffer),
            OutputInner::Digest(digest) => digest.as_slice(),
            OutputInner::Bytes(buffer) => as_slice32(buffer),
        }
    }
}

impl Clone for Output {
    fn clone(&self) -> (copy: Output)
        ensures
            copy@ == self@,
    {
        Output::from_bytes(self.as_ref())
    }
}

} // verus!
