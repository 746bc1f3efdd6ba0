use vstd::prelude::*;

verus! {

/// Locates one byte string inside a data buffer: the half-open byte range
/// `[start, start + len)`.
///
/// A record is a plain pair of sizes. Nothing about a buffer is checked when
/// one is made; whether the range fits is decided when it is resolved
/// against a buffer.
#[derive(Clone, Copy, Debug, PartialEq, Eq)]
pub struct Metadata {
    pub start: usize,
    pub len: usize,
}

impl Metadata {
    pub fn new(start: usize, len: usize) -> (record: Self)
        ensures
            record == (Metadata { start, len }),
    {
        Metadata { start, len }
    }

    /// The record as `(start, len)`.
    pub fn as_tuple(&self) -> (pair: (usize, usize))
        ensures
            pair == (self.start, self.len),
    {
        (self.start, self.len)
    }

    /// One past the last byte of the range, as a mathematical integer.
    pub open spec fn end(self) -> int {
        self.start + self.len
    }
}

} // verus!
