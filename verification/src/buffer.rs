//! Byte buffers of fixed capacity, from the `arrayvec` crate.

use arrayvec::{ArrayVec, CapacityError};
use vstd::prelude::*;

verus! {

/// A vector that stores its items inline and never holds more than `CAP` of them.
#[verifier::external_type_specification]
#[verifier::external_body]
#[verifier::reject_recursive_types(T)]
pub struct ExArrayVec<T, const CAP: usize>(ArrayVec<T, CAP>);

/// The error of an insertion for which there is no room.
#[verifier::external_type_specification]
#[verifier::external_body]
#[verifier::reject_recursive_types(T)]
pub struct ExCapacityError<T>(CapacityError<T>);

/// The bytes that a buffer of capacity 31 holds, in order.
pub uninterp spec fn contents31(buffer: ArrayVec<u8, 31>) -> Seq<u8>;

/// Creates a buffer of capacity 31 through `ArrayVec::new`.
///
/// Trusted: the new buffer is empty.
#[verifier::external_body]
pub(crate) fn new31() -> (buffer: ArrayVec<u8, 31>)
    ensures
        contents31(buffer) == Seq::<u8>::empty(),
{
    ArrayVec::new()
}

/// Appends bytes to a buffer of capacity 31 through `ArrayVec::try_extend_from_slice`.
///
/// Trusted: the call succeeds exactly when the bytes still fit, and then appends all of them. When
/// it fails, it leaves the contents as they were.
#[verifier::external_body]
pub(crate) fn try_extend31(buffer: &mut ArrayVec<u8, 31>, data: &[u8]) -> (result: Result<
    (),
    CapacityError,
>)
    ensures
        result is Ok <==> contents31(*old(buffer)).len() + data@.len() <= 31,
        contents31(*final(buffer)) == (if result is Ok {
            contents31(*old(buffer)) + data@
        } else {
            contents31(*old(buffer))
        }),
{
    buffer.try_extend_from_slice(data)
}

/// Borrows the bytes of a buffer of capacity 31 through `ArrayVec::as_slice`.
///
/// Trusted: the slice holds the contents of the buffer, of which there are at most 31 bytes.
#[verifier::external_body]
pub(crate) fn as_slice31(buffer: &ArrayVec<u8, 31>) -> (bytes: &[u8])
    ensures
        bytes@ == contents31(*buffer),
        bytes@.len() <= 31,
{
    buffer.as_slice()
}

/// The bytes that a buffer of capacity 32 holds, in order.
pub uninterp spec fn contents32(buffer: ArrayVec<u8, 32>) -> Seq<u8>;

/// Creates a buffer of capacity 32 through `ArrayVec::new`.
///
/// Trusted: the new buffer is empty.
#[verifier::external_body]
pub(crate) fn new32() -> (buffer: ArrayVec<u8, 32>)
    ensures
        contents32(buffer) == Seq::<u8>::empty(),
{
    ArrayVec::new()
}

/// Appends bytes to a buffer of capacity 32 through `ArrayVec::try_extend_from_slice`.
///
/// Trusted: the call succeeds exactly when the bytes still fit, and then appends all of them. When
/// it fails, it leaves the contents as they were.
#[verifier::external_body]
pub(crate) fn try_extend32(buffer: &mut ArrayVec<u8, 32>, data: &[u8]) -> (result: Result<
    (),
    CapacityError,
>)
    ensures
        result is Ok <==> contents32(*old(buffer)).len() + data@.len() <= 32,
        contents32(*final(buffer)) == (if result is Ok {
            contents32(*old(buffer)) + data@
        } else {
            contents32(*old(buffer))
        }),
{
    buffer.try_extend_from_slice(data)
}

/// Borrows the bytes of a buffer of capacity 32 through `ArrayVec::as_slice`.
///
/// Trusted: the slice holds the contents of the buffer, of which there are at most 32 bytes.
#[verifier::external_body]
pub(crate) fn as_slice32(buffer: &ArrayVec<u8, 32>) -> (bytes: &[u8])
    ensures
        bytes@ == contents32(*buffer),
        bytes@.len() <= 32,
{
    buffer.as_slice()
}

} // verus!
