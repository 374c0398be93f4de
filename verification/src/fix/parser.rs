//! Splitting a byte buffer into `tag=value` fields.
use vstd::prelude::*;

use crate::text::{
    all_digits, decimal_bytes, digits_value, is_digit, lemma_decimal_bytes,
    lemma_digits_none_below_zero, lemma_digits_value_prefix,
};

verus! {

/// The delimiter that ends a field.
pub const SOH: u8 = 0x01;

/// The sign between a field's tag and its value.
pub const EQUALS: u8 = 61;

/// One field of a message: its tag, and the bytes between `=` and the delimiter.
#[derive(Debug, Clone, Copy)]
pub struct FixField<'a> {
    pub tag: u32,
    pub value: &'a [u8],
}

/// Reads the fields of a buffer one after another.
pub struct FixParser<'a> {
    data: &'a [u8],
    /// The next byte to read.
    pos: usize,
    /// The end of the last field that was returned.
    end: usize,
}

/// Reading a tag from `pos` on, where `tag` is what the digits so far denote:
/// the offset at which reading stops, and the tag where that offset holds `=`.
/// A byte that is no digit stops it, and so does a digit with which the tag
/// would no longer fit in 32 bits.
pub open spec fn scan_tag(data: Seq<u8>, pos: int, tag: nat) -> (int, Option<u32>)
    decreases data.len() - pos,
{
    if pos >= data.len() {
        (pos, None)
    } else if data[pos] == EQUALS {
        (pos, Some(tag as u32))
    } else if !is_digit(data[pos]) || tag * 10 + (data[pos] - 48) > u32::MAX {
        (pos, None)
    } else {
        scan_tag(data, pos + 1, (tag * 10 + (data[pos] - 48)) as nat)
    }
}

/// The first offset from `pos` on that holds a delimiter, or the end of the
/// buffer.
pub open spec fn value_end(data: Seq<u8>, pos: int) -> int
    decreases data.len() - pos,
{
    if pos >= data.len() || data[pos] == SOH {
        pos
    } else {
        value_end(data, pos + 1)
    }
}

/// The field that starts at `pos`, if one does, and the offset just past what
/// was read.
pub open spec fn field_at(data: Seq<u8>, pos: int) -> (int, Option<(u32, Seq<u8>)>) {
    let (eq, tag) = scan_tag(data, pos, 0);
    match tag {
        None => (eq, None),
        Some(t) => {
            let end = value_end(data, eq + 1);
            (if end < data.len() { end + 1 } else { end }, Some((t, data.subrange(eq + 1, end))))
        },
    }
}

impl<'a> FixParser<'a> {
    /// The buffer that is read.
    pub closed spec fn data(&self) -> Seq<u8> {
        self.data@
    }

    /// The offset of the next byte to read.
    pub closed spec fn offset(&self) -> int {
        self.pos as int
    }

    /// The offset just past the last field that was returned, or the start of the
    /// buffer where none was.
    pub closed spec fn last_end(&self) -> int {
        self.end as int
    }

    /// A parser at the start of `buf`.
    pub fn new(buf: &'a [u8]) -> (parser: Self)
        ensures
            parser.data() == buf@,
            parser.offset() == 0,
            parser.last_end() == 0,
    {
        Self { data: buf, pos: 0, end: 0 }
    }

    /// Byte offset into the input buffer just past the last field returned by
    /// `next_field`.
    pub fn pos(&self) -> (pos: usize)
        ensures
            pos == self.last_end(),
    {
        self.end
    }

    /// The next field, or `None` where no well-formed field follows: at the end
    /// of the buffer, or where a tag holds anything but digits, does not fit in
    /// 32 bits or is not followed by `=`. Reading goes on where it stopped, in
    /// either case.
    pub fn next_field(&mut self) -> (field: Option<FixField<'a>>)
        ensures
            final(self).data() == old(self).data(),
            final(self).offset() == field_at(old(self).data(), old(self).offset()).0,
            match field {
                Some(f) => field_at(old(self).data(), old(self).offset()).1 == Some((f.tag, f.value@))
                    && final(self).last_end() == final(self).offset(),
                None => field_at(old(self).data(), old(self).offset()).1 is None && final(self).last_end() == old(
                    self,
                ).last_end(),
            },
    {
        let ghost data = self.data@;
        let ghost start = self.pos as int;
        let mut tag: u32 = 0;
        while self.pos < self.data.len() && self.data[self.pos] != EQUALS
            invariant
                self.data@ == data,
                data == old(self).data(),
                start == old(self).offset(),
                self.end == old(self).end,
                scan_tag(data, start, 0) == scan_tag(data, self.pos as int, tag as nat),
            decreases data.len() - self.pos,
        {
            let byte: u8 = self.data[self.pos];
            if byte < 48 || byte > 57 {
                return None;
            }
            let digit: u32 = (byte - 48) as u32;
            if tag > 429_496_729 || (tag == 429_496_729 && digit > 5) {
                return None;
            }
            tag = tag * 10 + digit;
            self.pos = self.pos + 1;
        }
        if self.pos >= self.data.len() {
            return None;
        }
        self.pos = self.pos + 1;
        let value_start: usize = self.pos;
        while self.pos < self.data.len() && self.data[self.pos] != SOH
            invariant
                self.data@ == data,
                value_start <= self.pos <= data.len(),
                value_end(data, value_start as int) == value_end(data, self.pos as int),
            decreases data.len() - self.pos,
        {
            self.pos = self.pos + 1;
        }
        let value: &'a [u8] = &self.data[value_start..self.pos];
        if self.pos < self.data.len() {
            self.pos = self.pos + 1;
        }
        self.end = self.pos;
        Some(FixField { tag, value })
    }
}

/// Reading a tag stops between where it started and the end of the buffer, and
/// before the end where it finds one.
pub(crate) proof fn lemma_scan_tag_bounds(data: Seq<u8>, pos: int, tag: nat)
    requires
        0 <= pos <= data.len(),
    ensures
        pos <= scan_tag(data, pos, tag).0 <= data.len(),
        scan_tag(data, pos, tag).1 is Some ==> scan_tag(data, pos, tag).0 < data.len(),
    decreases data.len() - pos,
{
    if pos < data.len() {
        lemma_scan_tag_bounds(data, pos + 1, (tag * 10 + (data[pos] - 48)) as nat);
    }
}

pub(crate) proof fn lemma_value_end_bounds(data: Seq<u8>, pos: int)
    requires
        0 <= pos <= data.len(),
    ensures
        pos <= value_end(data, pos) <= data.len(),
    decreases data.len() - pos,
{
    if pos < data.len() {
        lemma_value_end_bounds(data, pos + 1);
    }
}

/// The parser never moves backwards or past the end of its buffer, and a field
/// that it returns moves it forward.
pub proof fn parser_stays_in_the_buffer(data: Seq<u8>, pos: int)
    requires
        0 <= pos <= data.len(),
    ensures
        pos <= field_at(data, pos).0 <= data.len(),
        field_at(data, pos).1 is Some ==> pos < field_at(data, pos).0,
{
    lemma_scan_tag_bounds(data, pos, 0);
    let (eq, tag) = scan_tag(data, pos, 0);
    if tag is Some {
        lemma_value_end_bounds(data, eq + 1);
    }
}

/// A field as it stands on the wire: the tag in base ten, `=`, the value and
/// the delimiter.
pub open spec fn field_bytes(tag: u32, value: Seq<u8>) -> Seq<u8> {
    decimal_bytes(tag as nat) + seq![EQUALS] + value + seq![SOH]
}

/// Whether a value can stand in a field: it holds no delimiter.
pub open spec fn delimiter_free(value: Seq<u8>) -> bool {
    !value.contains(SOH)
}

/// Digits can stand in a field.
pub proof fn lemma_digits_delimiter_free(digits: Seq<u8>)
    requires
        all_digits(digits),
    ensures
        delimiter_free(digits),
{
    if digits.contains(SOH) {
        let i = choose|i: int| 0 <= i < digits.len() && digits[i] == SOH;
        assert(is_digit(digits[i]));
    }
}

/// Reading has consumed the first `k` digits of a tag.
proof fn lemma_scan_digits(data: Seq<u8>, pos: int, digits: Seq<u8>, k: int)
    requires
        0 <= pos,
        pos + digits.len() <= data.len(),
        0 <= k <= digits.len(),
        data.subrange(pos, pos + digits.len()) == digits,
        all_digits(digits),
        digits_value(digits) <= u32::MAX,
    ensures
        scan_tag(data, pos, 0) == scan_tag(data, pos + k, digits_value(digits.take(k))),
    decreases k,
{
    if k > 0 {
        lemma_scan_digits(data, pos, digits, k - 1);
        lemma_digits_none_below_zero(digits);
        lemma_digits_value_prefix(digits, k);
        assert(digits.take(k).drop_last() =~= digits.take(k - 1));
        assert(is_digit(digits[k - 1]));
        assert(data[pos + k - 1] == digits[k - 1]);
    } else {
        assert(digits.take(0) =~= Seq::<u8>::empty());
    }
}

proof fn lemma_value_end_found(data: Seq<u8>, pos: int, end: int)
    requires
        0 <= pos <= end < data.len(),
        data[end] == SOH,
        forall|i: int| pos <= i < end ==> data[i] != SOH,
    ensures
        value_end(data, pos) == end,
    decreases end - pos,
{
    if pos < end {
        lemma_value_end_found(data, pos + 1, end);
    }
}

/// A field written into a buffer is read back with its tag and its value, and
/// the parser stands just past it.
pub proof fn written_field_is_read_back(data: Seq<u8>, pos: int, tag: u32, value: Seq<u8>)
    requires
        0 <= pos,
        pos + field_bytes(tag, value).len() <= data.len(),
        data.subrange(pos, pos + field_bytes(tag, value).len()) == field_bytes(tag, value),
        delimiter_free(value),
    ensures
        field_at(data, pos) == (pos + field_bytes(tag, value).len(), Some((tag, value))),
{
    let digits = decimal_bytes(tag as nat);
    let written = field_bytes(tag, value);
    let eq = pos + digits.len();
    let end = eq + 1 + value.len();
    lemma_decimal_bytes(tag as nat);
    assert forall|i: int| 0 <= i < written.len() implies data[pos + i] == #[trigger] written[i] by {
        assert(data.subrange(pos, pos + written.len())[i] == written[i]);
    }
    assert(data.subrange(pos, eq) =~= digits) by {
        assert forall|i: int| 0 <= i < digits.len() implies data.subrange(pos, eq)[i] == digits[i] by {
            assert(written[i] == digits[i]);
        }
    }
    lemma_scan_digits(data, pos, digits, digits.len() as int);
    assert(digits.take(digits.len() as int) =~= digits);
    assert(written[digits.len() as int] == EQUALS);
    assert(data[eq] == EQUALS);
    assert(scan_tag(data, pos, 0) == (eq, Some(tag)));
    assert forall|i: int| eq + 1 <= i < end implies data[i] != SOH && data[i] == value[i - eq - 1] by {
        assert(written[i - pos] == value[i - eq - 1]);
        assert(value.contains(value[i - eq - 1]));
    }
    assert(written[end - pos] == SOH);
    assert(data[end] == SOH);
    lemma_value_end_found(data, eq + 1, end);
    assert(data.subrange(eq + 1, end) =~= value);
}

} // verus!
