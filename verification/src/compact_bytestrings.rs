use vstd::prelude::*;

use crate::metadata::Metadata;
use crate::shared::{
    bytes_of, in_bounds, index_bytestr, lemma_entries_in_bounds, lookup, present, strings,
    ByteStringIter,
};

verus! {

/// The data buffer and the records after `bytes` is appended to a store
/// that holds `data` and `meta`.
pub open spec fn appended(data: Seq<u8>, meta: Seq<Metadata>, bytes: Seq<u8>) -> (
    Seq<u8>,
    Seq<Metadata>,
) {
    (data + bytes, meta.push(Metadata { start: data.len() as usize, len: bytes.len() as usize }))
}

/// The data buffer and the records of a store that started empty and had
/// each of `items` appended in order.
pub open spec fn appended_all(items: Seq<Seq<u8>>) -> (Seq<u8>, Seq<Metadata>)
    decreases items.len(),
{
    if items.len() == 0 {
        (Seq::empty(), Seq::empty())
    } else {
        let before = appended_all(items.drop_last());
        appended(before.0, before.1, items.last())
    }
}

/// A growable store of byte strings: one buffer of payload bytes and one
/// record per byte string.
pub struct CompactBytestrings {
    data: Vec<u8>,
    meta: Vec<Metadata>,
}

impl View for CompactBytestrings {
    type V = Seq<Seq<u8>>;

    /// The byte strings held, in the order they were appended.
    open spec fn view(&self) -> Seq<Seq<u8>> {
        strings(self.data_view(), self.meta_view())
    }
}

impl CompactBytestrings {
    #[verifier::type_invariant]
    spec fn well_formed(&self) -> bool {
        in_bounds(self.data@, self.meta@)
    }

    /// The payload bytes of all entries, back to back.
    pub closed spec fn data_view(&self) -> Seq<u8> {
        self.data@
    }

    /// One record per entry, in order.
    pub closed spec fn meta_view(&self) -> Seq<Metadata> {
        self.meta@
    }

    /// An empty store.
    pub fn new() -> (store: Self)
        ensures
            store.data_view() == Seq::<u8>::empty(),
            store.meta_view() == Seq::<Metadata>::empty(),
            store@ == Seq::<Seq<u8>>::empty(),
    {
        CompactBytestrings { data: Vec::new(), meta: Vec::new() }
    }

    /// Appends `bytestring` as the last entry.
    pub fn push(&mut self, bytestring: &[u8])
        ensures
            (final(self).data_view(), final(self).meta_view()) == appended(
                old(self).data_view(),
                old(self).meta_view(),
                bytestring@,
            ),
            final(self)@ == old(self)@.push(bytestring@),
    {
        // The store is taken apart and put back whole, so that it is never
        // seen with one buffer ahead of the other.
        let mut store = CompactBytestrings::new();
        core::mem::swap(self, &mut store);
        proof {
            use_type_invariant(&store);
        }
        let CompactBytestrings { mut data, mut meta } = store;
        let start = data.len();
        data.extend_from_slice(bytestring);
        meta.push(Metadata::new(start, bytestring.len()));
        proof {
            assert(data@ == old(self).data@ + bytestring@);
            assert(data.len() == data@.len());
            lemma_strings_appended(old(self).data@, old(self).meta@, bytestring@);
        }
        *self = CompactBytestrings { data, meta };
    }

    /// Gives up the two buffers: the payload bytes and the records.
    pub(crate) fn into_parts(self) -> (parts: (Vec<u8>, Vec<Metadata>))
        ensures
            parts.0@ == self.data_view(),
            parts.1@ == self.meta_view(),
            in_bounds(parts.0@, parts.1@),
    {
        proof {
            use_type_invariant(&self);
        }
        (self.data, self.meta)
    }

    /// The number of entries.
    pub fn len(&self) -> (count: usize)
        ensures
            count == self@.len(),
    {
        self.meta.len()
    }

    /// The entry at position `index`, if there is one.
    pub fn get(&self, index: usize) -> (found: Option<&[u8]>)
        ensures
            bytes_of(found) == lookup(self.data_view(), self.meta_view(), index as int),
            index < self@.len() ==> bytes_of(found) == Some(self@[index as int]),
            index >= self@.len() ==> found is None,
    {
        proof {
            use_type_invariant(self);
        }
        index_bytestr(self.data.as_slice(), self.meta.as_slice(), index)
    }

    /// An iterator over the entries, first to last.
    pub fn iter(&self) -> (iter: ByteStringIter<'_>)
        ensures
            iter.data() == self.data_view(),
            iter.pending() == self.meta_view(),
            iter.remaining() == present(self@),
    {
        proof {
            use_type_invariant(self);
            lemma_entries_in_bounds(self.data_view(), self.meta_view());
        }
        ByteStringIter::new(self.data.as_slice(), self.meta.as_slice())
    }
}

/// Appending to a store whose records are in bounds keeps them in bounds,
/// leaves every earlier entry as it was and adds `bytes` as the last one.
pub proof fn lemma_strings_appended(data: Seq<u8>, meta: Seq<Metadata>, bytes: Seq<u8>)
    requires
        in_bounds(data, meta),
        data.len() + bytes.len() <= usize::MAX,
    ensures
        in_bounds(appended(data, meta, bytes).0, appended(data, meta, bytes).1),
        strings(appended(data, meta, bytes).0, appended(data, meta, bytes).1) == strings(
            data,
            meta,
        ).push(bytes),
{
    let (data2, meta2) = appended(data, meta, bytes);
    assert forall|i: int| 0 <= i < meta2.len() implies (#[trigger] meta2[i]).end()
        <= data2.len() by {
        if i < meta.len() {
            assert(meta2[i] == meta[i]);
        }
    }
    assert forall|i: int| 0 <= i < meta2.len() implies #[trigger] strings(data2, meta2)[i]
        == strings(data, meta).push(bytes)[i] by {
        if i < meta.len() {
            assert(meta2[i] == meta[i]);
            assert(data2.subrange(meta[i].start as int, meta[i].end()) == data.subrange(
                meta[i].start as int,
                meta[i].end(),
            ));
        } else {
            assert(data2.subrange(data.len() as int, (data.len() + bytes.len()) as int) == bytes);
        }
    }
}

/// Round trip. A store that started empty and had each of `items` appended
/// in order has one record per item, all in bounds, and position `i`
/// resolves to `items[i]`; every other position resolves to nothing.
/// Freezing keeps both buffers as they are, so the same holds of the
/// frozen store.
pub proof fn lemma_round_trip(items: Seq<Seq<u8>>)
    requires
        appended_all(items).0.len() <= usize::MAX,
    ensures
        appended_all(items).1.len() == items.len(),
        in_bounds(appended_all(items).0, appended_all(items).1),
        strings(appended_all(items).0, appended_all(items).1) == items,
        forall|i: int|
            0 <= i < items.len() ==> lookup(appended_all(items).0, appended_all(items).1, i)
                == Some(#[trigger] items[i]),
        forall|i: int|
            i < 0 || i >= items.len() ==> (#[trigger] lookup(
                appended_all(items).0,
                appended_all(items).1,
                i,
            )) is None,
    decreases items.len(),
{
    let (data, meta) = appended_all(items);
    if items.len() == 0 {
        assert(strings(data, meta) == items);
    } else {
        let before = appended_all(items.drop_last());
        lemma_round_trip(items.drop_last());
        lemma_strings_appended(before.0, before.1, items.last());
        assert(items.drop_last().push(items.last()) == items);
    }
    lemma_entries_in_bounds(data, meta);
}

} // verus!
