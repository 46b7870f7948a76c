//! The BLAKE2b hash function, as the `blake2-rfc` crate computes it.

use blake2_rfc::blake2b::Blake2b;
use vstd::prelude::*;

verus! {

/// A BLAKE2b state that bytes are fed into piece by piece.
#[verifier::external_type_specification]
#[verifier::external_body]
pub struct ExBlake2b(Blake2b);

/// The bytes that a hasher has been fed so far, in order.
pub uninterp spec fn absorbed(hasher: Blake2b) -> Seq<u8>;

/// The number of bytes in the digest that a hasher was created for.
pub uninterp spec fn digest_len(hasher: Blake2b) -> nat;

/// The unkeyed or keyed BLAKE2b digest of `data`, `len` bytes long.
pub uninterp spec fn blake2b_digest(len: nat, key: Seq<u8>, data: Seq<u8>) -> Seq<u8>;

/// Creates a hasher without a key through `Blake2b::new`.
///
/// Trusted: the new hasher has been fed nothing and will give a digest of `len` bytes. The
/// function panics unless `len` lies between 1 and 64.
#[verifier::external_body]
pub(crate) fn new_hasher(len: usize) -> (hasher: Blake2b)
    requires
        1 <= len <= 64,
    ensures
        absorbed(hasher) == Seq::<u8>::empty(),
        digest_len(hasher) == len,
{
    Blake2b::new(len)
}

/// Feeds more bytes into a hasher through `Blake2b::update`.
///
/// Trusted: the bytes are appended to those already fed, and the length of the digest stays. The
/// function panics when the number of bytes fed in total no longer fits in a `u64`.
#[verifier::external_body]
pub(crate) fn feed_hasher(hasher: &mut Blake2b, data: &[u8])
    requires
        absorbed(*old(hasher)).len() + data@.len() <= u64::MAX,
    ensures
        absorbed(*final(hasher)) == absorbed(*old(hasher)) + data@,
        digest_len(*final(hasher)) == digest_len(*old(hasher)),
{
    hasher.update(data)
}

/// Consumes a hasher through `Blake2b::finalize`, and copies the digest out of the result.
///
/// Trusted: feeding a hasher in pieces gives the same digest as hashing all the bytes at once with
/// an empty key, and the digest has the length that the hasher was created for.
#[verifier::external_body]
pub(crate) fn finish_hasher(hasher: Blake2b) -> (digest: Vec<u8>)
    ensures
        digest@ == blake2b_digest(digest_len(hasher), Seq::<u8>::empty(), absorbed(hasher)),
        digest@.len() == digest_len(hasher),
{
    hasher.finalize().as_bytes().to_vec()
}

/// Hashes `data` in one go through the function `blake2b`, and copies the digest out of the
/// result.
///
/// Trusted: the digest is a function of the arguments and has `len` bytes. The function panics
/// unless `len` lies between 1 and 64 and the key has at most 64 bytes. It also panics when the
/// number of bytes hashed, where a key counts as one block of 128 bytes, does not fit in a `u64`.
#[verifier::external_body]
pub(crate) fn hash(len: usize, key: &[u8], data: &[u8]) -> (digest: Vec<u8>)
    requires
        1 <= len <= 64,
        key@.len() <= 64,
        data@.len() + (if key@.len() == 0 { 0int } else { 128int }) <= u64::MAX,
    ensures
        digest@ == blake2b_digest(len as nat, key@, data@),
        digest@.len() == len,
{
    blake2_rfc::blake2b::blake2b(len, key, data).as_bytes().to_vec()
}

} // verus!
