//! Columns of recent rows, each over a builder of the `polars` crate.
use polars::chunked_array::builder::{ChunkedBuilder, PrimitiveChunkedBuilder};
use polars::datatypes::{Int64Type, UInt32Type, UInt8Type};
use vstd::prelude::*;

verus! {

/// How many values a column can be finished with: one less than the largest
/// index of `polars`.
pub open spec fn column_limit() -> nat {
    0xFFFF_FFFE
}

/// A column of times: a `PrimitiveChunkedBuilder<Int64Type>`.
#[verifier::external_body]
pub struct TimeColumn {
    inner: PrimitiveChunkedBuilder<Int64Type>,
}

/// A column of volumes or of price bits: a `PrimitiveChunkedBuilder<UInt32Type>`.
#[verifier::external_body]
pub struct WordColumn {
    inner: PrimitiveChunkedBuilder<UInt32Type>,
}

/// A column of trade types, which may be absent: a
/// `PrimitiveChunkedBuilder<UInt8Type>`.
#[verifier::external_body]
pub struct ByteColumn {
    inner: PrimitiveChunkedBuilder<UInt8Type>,
}

/// The values of a column of times, in the order in which they were appended.
pub uninterp spec fn time_values(column: TimeColumn) -> Seq<i64>;

/// The name of a column of times.
pub uninterp spec fn time_label(column: TimeColumn) -> Seq<char>;

/// The values of a column of words, in the order in which they were appended.
pub uninterp spec fn word_values(column: WordColumn) -> Seq<u32>;

/// The name of a column of words.
pub uninterp spec fn word_label(column: WordColumn) -> Seq<char>;

/// The values of a column of bytes, in the order in which they were appended.
pub uninterp spec fn byte_values(column: ByteColumn) -> Seq<Option<u8>>;

/// The name of a column of bytes.
pub uninterp spec fn byte_label(column: ByteColumn) -> Seq<char>;

impl TimeColumn {
    /// `PrimitiveChunkedBuilder::new`: an empty builder with a name and room for
    /// `capacity` values of eight bytes.
    #[verifier::external_body]
    pub(crate) fn new(label: &str, capacity: usize) -> (column: Self)
        requires
            capacity * 8 <= isize::MAX,
        ensures
            time_values(column) == Seq::<i64>::empty(),
            time_label(column) == label@,
    {
        TimeColumn { inner: PrimitiveChunkedBuilder::new(label.into(), capacity) }
    }

    /// `ChunkedBuilder::append_value`: one more value at the end. The values
    /// stand in a `Vec`, which never holds more than `isize::MAX` of them.
    #[verifier::external_body]
    pub(crate) fn push(&mut self, value: i64)
        ensures
            time_values(*final(self)) == time_values(*old(self)).push(value),
            time_label(*final(self)) == time_label(*old(self)),
            time_values(*final(self)).len() <= isize::MAX,
    {
        self.inner.append_value(value)
    }

    /// `<PrimitiveChunkedBuilder as Clone>::clone`: the same name and values.
    #[verifier::external_body]
    pub(crate) fn dup(&self) -> (column: Self)
        ensures
            time_values(column) == time_values(*self),
            time_label(column) == time_label(*self),
    {
        TimeColumn { inner: self.inner.clone() }
    }

    /// `ChunkedBuilder::finish`: the name and the values of the builder. It
    /// panics past the largest index.
    #[verifier::external_body]
    pub(crate) fn finish(self) -> (r: (String, Vec<i64>))
        requires
            time_values(self).len() <= column_limit(),
        ensures
            r.0@ == time_label(self),
            r.1@ == time_values(self),
    {
        let array = self.inner.finish();
        (array.name().to_string(), array.into_no_null_iter().collect())
    }
}

impl WordColumn {
    /// `PrimitiveChunkedBuilder::new`: an empty builder with a name and room for
    /// `capacity` values of four bytes.
    #[verifier::external_body]
    pub(crate) fn new(label: &str, capacity: usize) -> (column: Self)
        requires
            capacity * 4 <= isize::MAX,
        ensures
            word_values(column) == Seq::<u32>::empty(),
            word_label(column) == label@,
    {
        WordColumn { inner: PrimitiveChunkedBuilder::new(label.into(), capacity) }
    }

    /// `ChunkedBuilder::append_value`: one more value at the end.
    #[verifier::external_body]
    pub(crate) fn push(&mut self, value: u32)
        ensures
            word_values(*final(self)) == word_values(*old(self)).push(value),
            word_label(*final(self)) == word_label(*old(self)),
    {
        self.inner.append_value(value)
    }

    /// `<PrimitiveChunkedBuilder as Clone>::clone`: the same name and values.
    #[verifier::external_body]
    pub(crate) fn dup(&self) -> (column: Self)
        ensures
            word_values(column) == word_values(*self),
            word_label(column) == word_label(*self),
    {
        WordColumn { inner: self.inner.clone() }
    }

    /// `ChunkedBuilder::finish`: the name and the values of the builder. It
    /// panics past the largest index.
    #[verifier::external_body]
    pub(crate) fn finish(self) -> (r: (String, Vec<u32>))
        requires
            word_values(self).len() <= column_limit(),
        ensures
            r.0@ == word_label(self),
            r.1@ == word_values(self),
    {
        let array = self.inner.finish();
        (array.name().to_string(), array.into_no_null_iter().collect())
    }
}

impl ByteColumn {
    /// `PrimitiveChunkedBuilder::new`: an empty builder with a name and room for
    /// `capacity` values of one byte.
    #[verifier::external_body]
    pub(crate) fn new(label: &str, capacity: usize) -> (column: Self)
        requires
            capacity <= isize::MAX,
        ensures
            byte_values(column) == Seq::<Option<u8>>::empty(),
            byte_label(column) == label@,
    {
        ByteColumn { inner: PrimitiveChunkedBuilder::new(label.into(), capacity) }
    }

    /// `ChunkedBuilder::append_option`: one more value, or an empty slot, at the
    /// end.
    #[verifier::external_body]
    pub(crate) fn push(&mut self, value: Option<u8>)
        ensures
            byte_values(*final(self)) == byte_values(*old(self)).push(value),
            byte_label(*final(self)) == byte_label(*old(self)),
    {
        self.inner.append_option(value)
    }

    /// `<PrimitiveChunkedBuilder as Clone>::clone`: the same name and values.
    #[verifier::external_body]
    pub(crate) fn dup(&self) -> (column: Self)
        ensures
            byte_values(column) == byte_values(*self),
            byte_label(column) == byte_label(*self),
    {
        ByteColumn { inner: self.inner.clone() }
    }

    /// `ChunkedBuilder::finish`: the name and the values of the builder, an
    /// empty slot as `None`. It panics past the largest index.
    #[verifier::external_body]
    pub(crate) fn finish(self) -> (r: (String, Vec<Option<u8>>))
        requires
            byte_values(self).len() <= column_limit(),
        ensures
            r.0@ == byte_label(self),
            r.1@ == byte_values(self),
    {
        let array = self.inner.finish();
        (array.name().to_string(), array.iter().collect())
    }
}

} // verus!
