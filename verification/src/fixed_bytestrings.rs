use small_fixed_array::InvalidLength;
use vstd::prelude::*;

use crate::compact_bytestrings::CompactBytestrings;
use crate::fixed_array::{
    bytes_error_text, bytes_slice, fixed_bytes, fixed_records, freeze_bytes, freeze_records,
    records_error_text, records_slice, refused_bytes_text, refused_records_text, FixedBuffer,
};
use crate::metadata::Metadata;
use crate::shared::{
    bytes_of, in_bounds, index_bytestr, index_bytestr_unchecked, lemma_entries_in_bounds, lookup,
    present, strings, ByteStringIter,
};

verus! {

/// The largest length that either buffer of a [`FixedBytestrings`] can
/// have: the largest value of its 32-bit counters.
pub const MAX_COUNT: usize = 0xffff_ffff;

/// One of the two buffers of a store.
#[derive(Clone, Copy, Debug, PartialEq, Eq)]
pub enum Buffer {
    /// The payload bytes.
    Data,
    /// The records.
    Meta,
}

#[derive(Debug)]
enum TryFromCompactBytesErrorRepr {
    Data(InvalidLength<u8>),
    Meta(InvalidLength<Metadata>),
}

/// Why a growable store could not be frozen: one of its buffers is longer
/// than [`MAX_COUNT`].
#[derive(Debug)]
pub struct TryFromCompactBytesError(TryFromCompactBytesErrorRepr);

impl From<InvalidLength<u8>> for TryFromCompactBytesError {
    /// The error of a data buffer that was refused.
    fn from(refused: InvalidLength<u8>) -> (error: Self)
        ensures
            error.buffer() == Buffer::Data,
            error.text() == refused_bytes_text(refused),
    {
        TryFromCompactBytesError(TryFromCompactBytesErrorRepr::Data(refused))
    }
}

impl vstd::std_specs::convert::FromSpecImpl<InvalidLength<u8>> for TryFromCompactBytesError {
    open spec fn obeys_from_spec() -> bool {
        true
    }

    closed spec fn from_spec(refused: InvalidLength<u8>) -> Self {
        TryFromCompactBytesError(TryFromCompactBytesErrorRepr::Data(refused))
    }
}

impl From<InvalidLength<Metadata>> for TryFromCompactBytesError {
    /// The error of a record buffer that was refused.
    fn from(refused: InvalidLength<Metadata>) -> (error: Self)
        ensures
            error.buffer() == Buffer::Meta,
            error.text() == refused_records_text(refused),
    {
        TryFromCompactBytesError(TryFromCompactBytesErrorRepr::Meta(refused))
    }
}

impl vstd::std_specs::convert::FromSpecImpl<InvalidLength<Metadata>> for TryFromCompactBytesError {
    open spec fn obeys_from_spec() -> bool {
        true
    }

    closed spec fn from_spec(refused: InvalidLength<Metadata>) -> Self {
        TryFromCompactBytesError(TryFromCompactBytesErrorRepr::Meta(refused))
    }
}

impl TryFromCompactBytesError {
    /// The buffer that was too long.
    pub closed spec fn buffer_spec(&self) -> Buffer {
        match self.0 {
            TryFromCompactBytesErrorRepr::Data(_) => Buffer::Data,
            TryFromCompactBytesErrorRepr::Meta(_) => Buffer::Meta,
        }
    }

    /// The buffer that was too long.
    #[verifier::when_used_as_spec(buffer_spec)]
    pub fn buffer(&self) -> (buffer: Buffer)
        ensures
            buffer == self.buffer_spec(),
    {
        match &self.0 {
            TryFromCompactBytesErrorRepr::Data(_) => Buffer::Data,
            TryFromCompactBytesErrorRepr::Meta(_) => Buffer::Meta,
        }
    }

    /// The error as text, worded by the array type that refused the buffer.
    pub fn message(&self) -> (text: String)
        ensures
            text@ == self.text(),
    {
        match &self.0 {
            TryFromCompactBytesErrorRepr::Data(err) => bytes_error_text(err),
            TryFromCompactBytesErrorRepr::Meta(err) => records_error_text(err),
        }
    }

    /// The text of the error: the `Display` text of the array error that
    /// it was made from.
    pub closed spec fn text(&self) -> Seq<char> {
        match self.0 {
            TryFromCompactBytesErrorRepr::Data(err) => refused_bytes_text(err),
            TryFromCompactBytesErrorRepr::Meta(err) => refused_records_text(err),
        }
    }
}

/// A frozen store of byte strings: the exact-size, read-only form of a
/// [`CompactBytestrings`].
pub struct FixedBytestrings {
    data: FixedBuffer<u8>,
    meta: FixedBuffer<Metadata>,
}

impl View for FixedBytestrings {
    type V = Seq<Seq<u8>>;

    /// The byte strings held, in order.
    open spec fn view(&self) -> Seq<Seq<u8>> {
        strings(self.data_view(), self.meta_view())
    }
}

impl FixedBytestrings {
    #[verifier::type_invariant]
    spec fn well_formed(&self) -> bool {
        in_bounds(fixed_bytes(self.data), fixed_records(self.meta))
    }

    /// The payload bytes of all entries.
    pub closed spec fn data_view(&self) -> Seq<u8> {
        fixed_bytes(self.data)
    }

    /// One record per entry, in order.
    pub closed spec fn meta_view(&self) -> Seq<Metadata> {
        fixed_records(self.meta)
    }

    /// The entry at position `index`, if there is one.
    pub fn get(&self, index: usize) -> (found: Option<&[u8]>)
        ensures
            bytes_of(found) == lookup(self.data_view(), self.meta_view(), index as int),
            index < self@.len() ==> bytes_of(found) == Some(self@[index as int]),
            index >= self@.len() ==> found is None,
    {
        proof {
            use_type_invariant(self);
        }
        index_bytestr(bytes_slice(&self.data), records_slice(&self.meta), index)
    }

    /// The entry at position `index`, for a caller who has established
    /// that the position exists. No bound is tested again.
    pub fn get_unchecked(&self, index: usize) -> (found: &[u8])
        requires
            index < self@.len(),
        ensures
            found@ == self@[index as int],
    {
        proof {
            use_type_invariant(self);
        }
        index_bytestr_unchecked(bytes_slice(&self.data), records_slice(&self.meta), index)
    }

    /// An iterator over the entries, first to last.
    pub fn iter(&self) -> (iter: ByteStringIter<'_>)
        ensures
            iter.data() == self.data_view(),
            iter.pending() == self.meta_view(),
            iter.remaining() == present(self@),
    {
        proof {
            use_type_invariant(self);
            lemma_entries_in_bounds(self.data_view(), self.meta_view());
        }
        ByteStringIter::new(bytes_slice(&self.data), records_slice(&self.meta))
    }
}

impl TryFrom<CompactBytestrings> for FixedBytestrings {
    type Error = TryFromCompactBytesError;

    /// Freezes a growable store. Both of its buffers are taken over as they
    /// are; the data buffer is looked at first.
    fn try_from(value: CompactBytestrings) -> (frozen: Result<Self, TryFromCompactBytesError>)
        ensures
            frozen is Ok <==> value.data_view().len() <= MAX_COUNT && value.meta_view().len()
                <= MAX_COUNT,
            frozen matches Ok(store) ==> store.data_view() == value.data_view()
                && store.meta_view() == value.meta_view() && store@ == value@,
            frozen matches Err(error) ==> error.buffer() == (if value.data_view().len()
                > MAX_COUNT {
                Buffer::Data
            } else {
                Buffer::Meta
            }),
    {
        let (data, meta) = value.into_parts();
        let data = freeze_bytes(data);
        let meta = freeze_records(meta);
        match data {
            Err(refused) => Err(TryFromCompactBytesError::from(refused)),
            Ok(data) => match meta {
                Err(refused) => Err(TryFromCompactBytesError::from(refused)),
                Ok(meta) => Ok(FixedBytestrings { data, meta }),
            },
        }
    }
}

impl vstd::std_specs::convert::TryFromSpecImpl<CompactBytestrings> for FixedBytestrings {
    /// The buffers of a frozen store are opaque, so no spec function gives
    /// the store itself; what holds of it is stated on `try_from`.
    open spec fn obeys_try_from_spec() -> bool {
        false
    }

    open spec fn try_from_spec(value: CompactBytestrings) -> Result<Self, TryFromCompactBytesError> {
        arbitrary()
    }
}

} // verus!
