//! What this library takes on trust about `small_fixed_array`.
//!
//! Nothing in this file is proved. Each item says what it assumes of the
//! outside crate; the rest of the library is verified against these
//! statements.

use small_fixed_array::{FixedArray, InvalidLength};
use vstd::prelude::*;

use crate::metadata::Metadata;

verus! {

/// A `small_fixed_array::FixedArray` whose length is kept in a `u32`: an
/// exact-size array that is never resized. Opaque to the verifier.
#[verifier::external_body]
#[verifier::reject_recursive_types(T)]
pub struct FixedBuffer<T> {
    inner: FixedArray<T, u32>,
}

/// `small_fixed_array::InvalidLength`, the error of a refused conversion.
/// Opaque to the verifier.
#[verifier::external_type_specification]
#[verifier::external_body]
#[verifier::reject_recursive_types(T)]
pub struct ExInvalidLength<T>(InvalidLength<T>);

/// The bytes that a fixed array of bytes holds, in order.
pub uninterp spec fn fixed_bytes(array: FixedBuffer<u8>) -> Seq<u8>;

/// The records that a fixed array of records holds, in order.
pub uninterp spec fn fixed_records(array: FixedBuffer<Metadata>) -> Seq<Metadata>;

/// `FixedArray::<u8, u32>::try_from(Vec<u8>)`. Assumed: the conversion
/// succeeds exactly when the length fits in a `u32`, and the array then
/// holds the bytes of the vector in the same order.
#[verifier::external_body]
pub(crate) fn freeze_bytes(bytes: Vec<u8>) -> (frozen: Result<FixedBuffer<u8>, InvalidLength<u8>>)
    ensures
        frozen is Ok <==> bytes@.len() <= u32::MAX,
        frozen matches Ok(array) ==> fixed_bytes(array) == bytes@,
{
    match FixedArray::try_from(bytes) {
        Ok(inner) => Ok(FixedBuffer { inner }),
        Err(error) => Err(error),
    }
}

/// `FixedArray::<Metadata, u32>::try_from(Vec<Metadata>)`. Assumed: the
/// conversion succeeds exactly when the length fits in a `u32`, and the
/// array then holds the records of the vector in the same order.
#[verifier::external_body]
pub(crate) fn freeze_records(records: Vec<Metadata>) -> (frozen: Result<
    FixedBuffer<Metadata>,
    InvalidLength<Metadata>,
>)
    ensures
        frozen is Ok <==> records@.len() <= u32::MAX,
        frozen matches Ok(array) ==> fixed_records(array) == records@,
{
    match FixedArray::try_from(records) {
        Ok(inner) => Ok(FixedBuffer { inner }),
        Err(error) => Err(error),
    }
}

/// `FixedArray::<u8, u32>::as_slice`. Assumed: the slice shows exactly
/// the bytes that the array holds.
#[verifier::external_body]
pub(crate) fn bytes_slice(array: &FixedBuffer<u8>) -> (slice: &[u8])
    ensures
        slice@ == fixed_bytes(*array),
{
    array.inner.as_slice()
}

/// `FixedArray::<Metadata, u32>::as_slice`. Assumed: the slice shows
/// exactly the records that the array holds.
#[verifier::external_body]
pub(crate) fn records_slice(array: &FixedBuffer<Metadata>) -> (slice: &[Metadata])
    ensures
        slice@ == fixed_records(*array),
{
    array.inner.as_slice()
}

/// The text that `Display` gives for the error of a refused byte buffer.
pub uninterp spec fn refused_bytes_text(error: InvalidLength<u8>) -> Seq<char>;

/// The text that `Display` gives for the error of a refused record buffer.
pub uninterp spec fn refused_records_text(error: InvalidLength<Metadata>) -> Seq<char>;

/// `Display` of `InvalidLength<u8>`, through `to_string`. Assumed: the
/// text is decided by the error alone. The crate words it from the length
/// that was refused and the name of the counter type; neither is stated
/// here.
#[verifier::external_body]
pub(crate) fn bytes_error_text(error: &InvalidLength<u8>) -> (text: String)
    ensures
        text@ == refused_bytes_text(*error),
{
    error.to_string()
}

/// `Display` of `InvalidLength<Metadata>`, through `to_string`. Assumed:
/// the text is decided by the error alone. The crate words it from the
/// length that was refused and the name of the counter type; neither is
/// stated here.
#[verifier::external_body]
pub(crate) fn records_error_text(error: &InvalidLength<Metadata>) -> (text: String)
    ensures
        text@ == refused_records_text(*error),
{
    error.to_string()
}

} // verus!
