use vstd::prelude::*;

use crate::metadata::Metadata;
use crate::traversal::{rest, taken};

verus! {

/// The bytes of `data` that `record` covers, or nothing when the range
/// reaches past the end of `data`.
pub open spec fn resolve(data: Seq<u8>, record: Metadata) -> Option<Seq<u8>> {
    if record.end() <= data.len() {
        Some(data.subrange(record.start as int, record.end()))
    } else {
        None
    }
}

/// The byte string at position `index`: nothing when `index` is not a
/// position of `meta`, otherwise what the record there resolves to.
pub open spec fn lookup(data: Seq<u8>, meta: Seq<Metadata>, index: int) -> Option<Seq<u8>> {
    if 0 <= index < meta.len() {
        resolve(data, meta[index])
    } else {
        None
    }
}

/// Whether every record of `meta` names a range inside `data`.
pub open spec fn in_bounds(data: Seq<u8>, meta: Seq<Metadata>) -> bool {
    forall|i: int| 0 <= i < meta.len() ==> (#[trigger] meta[i]).end() <= data.len()
}

/// The byte strings that `meta` cuts out of `data`, in the order of `meta`.
pub open spec fn strings(data: Seq<u8>, meta: Seq<Metadata>) -> Seq<Seq<u8>> {
    Seq::new(meta.len(), |i: int| data.subrange(meta[i].start as int, meta[i].end()))
}

/// A borrowed result seen as a mathematical value.
pub open spec fn bytes_of(found: Option<&[u8]>) -> Option<Seq<u8>> {
    match found {
        Some(bytes) => Some(bytes@),
        None => None,
    }
}

/// Resolves position `index` against `data` and `meta` with every bound
/// checked.
pub fn index_bytestr<'a>(data: &'a [u8], meta: &[Metadata], index: usize) -> (found: Option<&'a [u8]>)
    ensures
        bytes_of(found) == lookup(data@, meta@, index as int),
        found is None <==> index >= meta@.len() || meta@[index as int].end() > data@.len(),
{
    let (start, len) = meta.get(index)?.as_tuple();
    let size = data.len();
    let end = start.checked_add(len)?;
    if end <= size {
        Some(&data[start..end])
    } else {
        None
    }
}

/// Resolves position `index` against `data` and `meta` for a caller who
/// has already established that the position exists and that its record
/// lies inside `data`. No bound is tested again.
pub fn index_bytestr_unchecked<'a>(data: &'a [u8], meta: &[Metadata], index: usize) -> (found:
    &'a [u8])
    requires
        index < meta@.len(),
        meta@[index as int].end() <= data@.len(),
    ensures
        Some(found@) == lookup(data@, meta@, index as int),
{
    let (start, len) = meta[index].as_tuple();
    assert(data.len() == data@.len());
    &data[start..start + len]
}

/// The results that are still to come from a traversal: one per pending
/// record, in order, each what that record resolves to.
pub open spec fn entries(data: Seq<u8>, pending: Seq<Metadata>) -> Seq<Option<Seq<u8>>> {
    Seq::new(pending.len(), |i: int| resolve(data, pending[i]))
}

/// The result of a step: what the entry taken resolved to, or nothing
/// when no entry was taken.
pub open spec fn flattened(step: Option<Option<Seq<u8>>>) -> Option<Seq<u8>> {
    match step {
        Some(entry) => entry,
        None => None,
    }
}

/// Each byte string of `items` as a result that is present.
pub open spec fn present(items: Seq<Seq<u8>>) -> Seq<Option<Seq<u8>>> {
    Seq::new(items.len(), |i: int| Some(items[i]))
}

/// Where every record is in bounds, every result is present and carries
/// the byte string of its position.
pub proof fn lemma_entries_in_bounds(data: Seq<u8>, meta: Seq<Metadata>)
    requires
        in_bounds(data, meta),
    ensures
        entries(data, meta) == present(strings(data, meta)),
        forall|i: int| 0 <= i < meta.len() ==> lookup(data, meta, i) == Some(strings(data, meta)[i]),
{
    assert forall|i: int| 0 <= i < meta.len() implies #[trigger] entries(data, meta)[i] == present(
        strings(data, meta),
    )[i] by {
        assert(meta[i].end() <= data.len());
    }
    assert forall|i: int| 0 <= i < meta.len() implies lookup(data, meta, i) == Some(
        strings(data, meta)[i],
    ) by {
        assert(meta[i].end() <= data.len());
    }
}

/// Iterator over the byte strings of a store, from either end.
///
/// It walks the records from both ends towards the middle. Each step
/// resolves one record with every bound checked, so a record that does
/// not fit in the data yields nothing for its step.
pub struct ByteStringIter<'a> {
    data: &'a [u8],
    meta: &'a [Metadata],
    front: usize,
    back: usize,
}

impl<'a> ByteStringIter<'a> {
    #[verifier::type_invariant]
    spec fn well_formed(&self) -> bool {
        self.front <= self.back <= self.meta@.len()
    }

    /// The data buffer that the records are resolved against.
    pub closed spec fn data(&self) -> Seq<u8> {
        self.data@
    }

    /// The records not yet visited, in order.
    pub closed spec fn pending(&self) -> Seq<Metadata> {
        self.meta@.subrange(self.front as int, self.back as int)
    }

    /// What is still to come, from the front to the back.
    pub open spec fn remaining(&self) -> Seq<Option<Seq<u8>>> {
        entries(self.data(), self.pending())
    }

    /// An iterator over all of `meta`, resolved against `data`.
    pub fn new(data: &'a [u8], meta: &'a [Metadata]) -> (iter: Self)
        ensures
            iter.data() == data@,
            iter.pending() == meta@,
    {
        let iter = ByteStringIter { data, meta, front: 0, back: meta.len() };
        assert(meta@.subrange(0, meta@.len() as int) == meta@);
        iter
    }

    /// One step from the front: takes the first pending record and
    /// resolves it. Nothing is returned when no record is pending, or when
    /// the record taken does not fit in the data.
    pub fn next(&mut self) -> (found: Option<&'a [u8]>)
        ensures
            final(self).data() == old(self).data(),
            final(self).pending() == rest(old(self).pending(), false),
            final(self).remaining() == rest(old(self).remaining(), false),
            bytes_of(found) == flattened(taken(old(self).remaining(), false)),
    {
        proof {
            use_type_invariant(&*self);
        }
        if self.front < self.back {
            let found = index_bytestr(self.data, self.meta, self.front);
            self.front = self.front + 1;
            assert(self.pending() == old(self).pending().drop_first());
            assert(self.remaining() == old(self).remaining().drop_first());
            found
        } else {
            None
        }
    }

    /// One step from the back: takes the last pending record and resolves
    /// it. Nothing is returned when no record is pending, or when the
    /// record taken does not fit in the data.
    pub fn next_back(&mut self) -> (found: Option<&'a [u8]>)
        ensures
            final(self).data() == old(self).data(),
            final(self).pending() == rest(old(self).pending(), true),
            final(self).remaining() == rest(old(self).remaining(), true),
            bytes_of(found) == flattened(taken(old(self).remaining(), true)),
    {
        proof {
            use_type_invariant(&*self);
        }
        if self.front < self.back {
            self.back = self.back - 1;
            assert(self.pending() == old(self).pending().drop_last());
            assert(self.remaining() == old(self).remaining().drop_last());
            index_bytestr(self.data, self.meta, self.back)
        } else {
            None
        }
    }

    /// The number of records not yet visited.
    pub fn len(&self) -> (count: usize)
        ensures
            count == self.pending().len(),
            count == self.remaining().len(),
    {
        proof {
            use_type_invariant(self);
        }
        self.back - self.front
    }

    /// The exact number of steps left, as a lower and an upper bound.
    pub fn size_hint(&self) -> (bounds: (usize, Option<usize>))
        ensures
            bounds.0 == self.pending().len(),
            bounds.1 == Some(bounds.0),
    {
        let count = self.len();
        (count, Some(count))
    }
}

} // verus!
