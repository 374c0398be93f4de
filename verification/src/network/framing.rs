//! Splitting a byte stream into messages.
use bytes::BytesMut;
use vstd::prelude::*;
use vstd::utf8::*;

use crate::buffer::{buffer_bytes, buffer_slice};
use crate::errors::{ParsingError, ParsingFault};
use crate::fix::codec::{body_bytes, preamble_bytes, wire_bytes, FIX_VERSION};
use crate::fix::parser::{
    delimiter_free, field_at, field_bytes, lemma_digits_delimiter_free, lemma_scan_tag_bounds,
    lemma_value_end_bounds, parser_stays_in_the_buffer, scan_tag, value_end,
    written_field_is_read_back, FixParser, EQUALS, SOH,
};
use crate::fix::raw_msg::FieldText;
use crate::fix::tag;
use crate::text::{
    all_digits, decimal_bytes, is_digit, lemma_decimal_bytes, lemma_digits_none_below_zero,
    lemma_digits_value_prefix, parse_usize, usize_value,
};

verus! {

/// Trailer length for `10=` + a fixed 3-digit checksum + the SOH delimiter,
/// matching how `FixCodec::encode` always writes the checksum in three digits.
pub const TRAILER_LEN: usize = 7;

/// The sign that may stand in front of a number.
pub const PLUS: u8 = 43;

/// Whether BodyLength, which ends at `end`, has not arrived yet: neither its
/// delimiter nor a digit of it is there.
pub open spec fn length_outstanding(data: Seq<u8>, end: int, length: Seq<u8>) -> bool {
    end == data.len() && data.last() != SOH && (length.len() == 0 || length == seq![PLUS])
}

/// The length of the message at the start of `data`, or `None` where it has not
/// arrived in full. It is an error where the first two fields are not
/// BeginString and BodyLength, or the latter is no number.
pub open spec fn frame(data: Seq<u8>) -> Result<Option<int>, ParsingFault> {
    match field_at(data, 0) {
        (_, None) => Ok(None),
        (after_begin, Some((begin_tag, _))) => if begin_tag != tag::BEGIN_STRING {
            Err(ParsingFault::NotValidVal)
        } else {
            match field_at(data, after_begin) {
                (_, None) => Ok(None),
                (after_length, Some((length_tag, length))) => if length_tag != tag::BODY_LENGTH {
                    Err(ParsingFault::NotValidVal)
                } else {
                    match usize_value(length) {
                        None => if length_outstanding(data, after_length, length) {
                            Ok(None)
                        } else {
                            Err(ParsingFault::NotValidVal)
                        },
                        Some(body_len) => if after_length + body_len + TRAILER_LEN <= data.len() {
                            Ok(Some(after_length + body_len + TRAILER_LEN))
                        } else {
                            Ok(None)
                        },
                    }
                },
            }
        },
    }
}

/// Pulls exactly one complete FIX message out of `buf`, if one is fully
/// present.
///
/// Looks at the BeginString(8)/BodyLength(9) header to compute the full message
/// length, then only removes those bytes from `buf` once they have all arrived,
/// leaving a partial message untouched for the next call. This lets a raw byte
/// stream (which may deliver partial messages or several concatenated ones per
/// read) be split into individual messages before handing each one to
/// `FixCodec::decode`.
pub fn extract_message(buf: &mut BytesMut) -> (r: Result<Option<BytesMut>, ParsingError>)
    ensures
        ({
            let data = buffer_bytes(*old(buf));
            match r {
                Ok(Some(msg)) => {
                    &&& frame(data) matches Ok(Some(len))
                    &&& 0 <= len <= data.len()
                    &&& buffer_bytes(msg) == data.take(len)
                    &&& buffer_bytes(*final(buf)) == data.skip(len)
                },
                Ok(None) => frame(data) == Ok::<Option<int>, ParsingFault>(None) && buffer_bytes(*final(buf)) == data,
                Err(e) => frame(data) == Err::<Option<int>, ParsingFault>(e@) && buffer_bytes(*final(buf)) == data,
            }
        }),
{
    let ghost data = buffer_bytes(*buf);
    let mut parser: FixParser = FixParser::new(buffer_slice(buf));
    proof {
        parser_stays_in_the_buffer(data, 0);
        parser_stays_in_the_buffer(data, field_at(data, 0).0);
    }
    match parser.next_field() {
        None => {
            return Ok(None);
        },
        Some(begin_string) => {
            if begin_string.tag != tag::BEGIN_STRING {
                return Err(ParsingError::NotValidVal);
            }
        },
    }
    let body_len: usize = match parser.next_field() {
        None => {
            return Ok(None);
        },
        Some(body_length) => {
            if body_length.tag != tag::BODY_LENGTH {
                return Err(ParsingError::NotValidVal);
            }
            match parse_usize(body_length.value) {
                None => {
                    let bytes: &[u8] = buffer_slice(buf);
                    let value: &[u8] = body_length.value;
                    let no_digit: bool = value.len() == 0 || (value.len() == 1 && value[0] == PLUS);
                    assert(value.len() == 1 && value@[0] == PLUS ==> value@ =~= seq![PLUS]);
                    if no_digit && parser.pos() == bytes.len() && bytes[bytes.len() - 1] != SOH {
                        return Ok(None);
                    }
                    return Err(ParsingError::NotValidVal);
                },
                Some(body_len) => body_len,
            }
        },
    };
    let header_len: usize = parser.pos();
    let available: usize = buffer_slice(buf).len() - header_len;
    if available < TRAILER_LEN || available - TRAILER_LEN < body_len {
        return Ok(None);
    }
    Ok(Some(buf.split_to(header_len + body_len + TRAILER_LEN)))
}

proof fn lemma_version_bytes()
    ensures
        encode_utf8(FIX_VERSION@) == seq![70u8, 73, 88, 46, 52, 46, 52],
        delimiter_free(encode_utf8(FIX_VERSION@)),
        decimal_bytes(8) == seq![56u8],
        decimal_bytes(9) == seq![57u8],
        decimal_bytes(10) == seq![49u8, 48],
{
    reveal_strlit("FIX.4.4");
    is_ascii_chars_encode_utf8(FIX_VERSION@);
    assert(encode_utf8(FIX_VERSION@) =~= seq![70u8, 73, 88, 46, 52, 46, 52]);
    assert(decimal_bytes(1) =~= seq![49u8]);
    assert(decimal_bytes(10) =~= seq![49u8, 48]);
}

/// A written length is read back.
proof fn lemma_length_read_back(n: nat)
    requires
        n <= usize::MAX,
    ensures
        usize_value(decimal_bytes(n)) == Some(n as usize),
        delimiter_free(decimal_bytes(n)),
{
    lemma_decimal_bytes(n);
    lemma_digits_delimiter_free(decimal_bytes(n));
    assert(is_digit(decimal_bytes(n)[0]));
}

/// The header of a buffer that starts with the preamble of a message.
proof fn lemma_preamble(data: Seq<u8>, body_len: nat)
    requires
        body_len <= usize::MAX,
        preamble_bytes(body_len).len() <= data.len(),
        data.take(preamble_bytes(body_len).len() as int) == preamble_bytes(body_len),
    ensures
        frame(data) == (if preamble_bytes(body_len).len() + body_len + TRAILER_LEN <= data.len() {
            Ok::<Option<int>, ParsingFault>(Some(preamble_bytes(body_len).len() + body_len + TRAILER_LEN))
        } else {
            Ok::<Option<int>, ParsingFault>(None)
        }),
{
    lemma_version_bytes();
    lemma_length_read_back(body_len);
    let begin = field_bytes(tag::BEGIN_STRING, encode_utf8(FIX_VERSION@));
    let length = field_bytes(tag::BODY_LENGTH, decimal_bytes(body_len));
    let preamble = preamble_bytes(body_len);
    assert(data.subrange(0, begin.len() as int) =~= begin) by {
        assert forall|i: int| 0 <= i < begin.len() implies data[i] == begin[i] by {
            assert(data.take(preamble.len() as int)[i] == preamble[i]);
        }
    }
    assert(data.subrange(begin.len() as int, (begin.len() + length.len()) as int) =~= length) by {
        assert forall|i: int| 0 <= i < length.len() implies data[begin.len() + i] == length[i] by {
            assert(data.take(preamble.len() as int)[begin.len() + i] == preamble[begin.len() + i]);
        }
    }
    written_field_is_read_back(data, 0, tag::BEGIN_STRING, encode_utf8(FIX_VERSION@));
    written_field_is_read_back(data, begin.len() as int, tag::BODY_LENGTH, decimal_bytes(body_len));
}

/// A message that the codec wrote is cut off the front of a stream exactly,
/// whatever follows it.
pub proof fn written_message_is_extracted(fields: Seq<(u32, FieldText)>, rest: Seq<u8>)
    requires
        body_bytes(fields).len() <= usize::MAX,
    ensures
        frame(wire_bytes(fields) + rest) == Ok::<Option<int>, ParsingFault>(Some(wire_bytes(fields).len() as int)),
        (wire_bytes(fields) + rest).take(wire_bytes(fields).len() as int) == wire_bytes(fields),
        (wire_bytes(fields) + rest).skip(wire_bytes(fields).len() as int) == rest,
{
    let body = body_bytes(fields);
    let preamble = preamble_bytes(body.len());
    let wire = wire_bytes(fields);
    let data = wire + rest;
    lemma_version_bytes();
    assert(wire.len() == preamble.len() + body.len() + TRAILER_LEN);
    assert(data.take(preamble.len() as int) =~= preamble);
    lemma_preamble(data, body.len());
    assert(data.take(wire.len() as int) =~= wire);
    assert(data.skip(wire.len() as int) =~= rest);
}

proof fn lemma_value_runs_to_the_end(data: Seq<u8>, pos: int)
    requires
        0 <= pos <= data.len(),
        forall|i: int| pos <= i < data.len() ==> data[i] != SOH,
    ensures
        value_end(data, pos) == data.len(),
    decreases data.len() - pos,
{
    if pos < data.len() {
        lemma_value_runs_to_the_end(data, pos + 1);
    }
}

/// A one-digit tag and `=` at `pos`, and no delimiter after them: the value is
/// all that follows.
proof fn lemma_unfinished_field(data: Seq<u8>, pos: int, digit: u8)
    requires
        0 <= pos < data.len(),
        is_digit(digit),
        data[pos] == digit,
        pos + 1 < data.len() ==> data[pos + 1] == EQUALS,
        forall|i: int| pos <= i < data.len() ==> data[i] != SOH,
    ensures
        field_at(data, pos) == (if pos + 1 < data.len() {
            (data.len() as int, Some(((digit - 48) as u32, data.subrange(pos + 2, data.len() as int))))
        } else {
            (data.len() as int, None)
        }),
{
    reveal_with_fuel(scan_tag, 3);
    if pos + 1 < data.len() {
        lemma_value_runs_to_the_end(data, pos + 2);
    }
}

/// A message of which a part has arrived is not cut off: framing reports that
/// it is incomplete, wherever the part ends.
pub proof fn partial_message_is_not_extracted(fields: Seq<(u32, FieldText)>, arrived: int)
    requires
        body_bytes(fields).len() <= usize::MAX,
        0 <= arrived < wire_bytes(fields).len(),
    ensures
        frame(wire_bytes(fields).take(arrived)) == Ok::<Option<int>, ParsingFault>(None),
{
    let body = body_bytes(fields);
    let preamble = preamble_bytes(body.len());
    let wire = wire_bytes(fields);
    let data = wire.take(arrived);
    let version = encode_utf8(FIX_VERSION@);
    let begin = field_bytes(tag::BEGIN_STRING, version);
    let digits = decimal_bytes(body.len());
    let length = field_bytes(tag::BODY_LENGTH, digits);
    lemma_version_bytes();
    lemma_length_read_back(body.len());
    assert(wire.len() == preamble.len() + body.len() + TRAILER_LEN);
    assert forall|i: int| 0 <= i < arrived && i < preamble.len() implies data[i] == #[trigger] preamble[i] by {
        assert(wire[i] == preamble[i]);
    }
    assert forall|i: int| 0 <= i < begin.len() implies preamble[i] == #[trigger] begin[i] by {}
    if arrived >= preamble.len() {
        assert(data.take(preamble.len() as int) =~= preamble);
        lemma_preamble(data, body.len());
    } else if arrived < begin.len() {
        if arrived > 0 {
            assert forall|i: int| 0 <= i < data.len() implies data[i] != SOH by {
                assert(data[i] == preamble[i]);
                assert(preamble[i] == begin[i]);
            }
            assert(preamble[0] == begin[0]);
            assert(preamble[1] == begin[1]);
            lemma_unfinished_field(data, 0, 56);
        }
    } else {
        assert(data.subrange(0, begin.len() as int) =~= begin) by {
            assert forall|i: int| 0 <= i < begin.len() implies data[i] == begin[i] by {
                assert(data[i] == preamble[i]);
                assert(preamble[i] == begin[i]);
            }
        }
        written_field_is_read_back(data, 0, tag::BEGIN_STRING, version);
        let pos = begin.len() as int;
        assert(pos == 10);
        assert forall|i: int| pos <= i < data.len() implies data[i] != SOH && data[i] == length[i - pos] by {
            assert(data[i] == preamble[i]);
            assert(preamble[i] == length[i - pos]);
            if i >= pos + 2 {
                assert(length[i - pos] == digits[i - pos - 2]);
                assert(digits.contains(digits[i - pos - 2]));
            }
        }
        if arrived > pos {
            assert(length[0] == 57);
            assert(length[1] == EQUALS);
            lemma_unfinished_field(data, pos, 57);
            if arrived >= pos + 2 {
                let value = data.subrange(pos + 2, data.len() as int);
                assert(value =~= digits.take(arrived - pos - 2));
                lemma_decimal_bytes(body.len());
                lemma_digits_none_below_zero(digits);
                lemma_digits_value_prefix(digits, arrived - pos - 2);
                if arrived > pos + 2 {
                    assert(is_digit(digits[0]));
                    assert(value[0] == digits[0]);
                    assert(all_digits(value)) by {
                        assert forall|i: int| 0 <= i < value.len() implies is_digit(#[trigger] value[i]) by {
                            assert(is_digit(digits[i]));
                        }
                    }
                }
            }
        }
    }
}

proof fn lemma_scan_tag_extends(data: Seq<u8>, later: Seq<u8>, pos: int, t: nat)
    requires
        0 <= pos <= data.len(),
        scan_tag(data, pos, t).1 is Some,
    ensures
        scan_tag(data + later, pos, t) == scan_tag(data, pos, t),
    decreases data.len() - pos,
{
    if pos < data.len() {
        assert((data + later)[pos] == data[pos]);
        if data[pos] != EQUALS {
            lemma_scan_tag_extends(data, later, pos + 1, (t * 10 + (data[pos] - 48)) as nat);
        }
    }
}

proof fn lemma_value_end_extends(data: Seq<u8>, later: Seq<u8>, pos: int)
    requires
        0 <= pos <= data.len(),
        value_end(data, pos) < data.len(),
    ensures
        pos <= value_end(data, pos),
        value_end(data + later, pos) == value_end(data, pos),
    decreases data.len() - pos,
{
    if pos < data.len() {
        assert((data + later)[pos] == data[pos]);
        if data[pos] != SOH {
            lemma_value_end_extends(data, later, pos + 1);
        }
    }
}

/// A field behind which the buffer goes on is not changed by later bytes.
proof fn lemma_field_extends(data: Seq<u8>, later: Seq<u8>, pos: int)
    requires
        0 <= pos <= data.len(),
        field_at(data, pos).1 is Some,
        field_at(data, pos).0 < data.len(),
    ensures
        field_at(data + later, pos) == field_at(data, pos),
{
    lemma_scan_tag_extends(data, later, pos, 0);
    parser_stays_in_the_buffer(data, pos);
    let eq = scan_tag(data, pos, 0).0;
    lemma_scan_tag_bounds(data, pos, 0);
    lemma_value_end_extends(data, later, eq + 1);
    let end = value_end(data, eq + 1);
    assert((data + later).subrange(eq + 1, end) =~= data.subrange(eq + 1, end));
}

/// A message that has arrived in full is cut off the same way whatever arrives
/// behind it.
pub proof fn arrived_message_stays_the_same(data: Seq<u8>, later: Seq<u8>)
    requires
        frame(data) matches Ok(Some(_)),
    ensures
        frame(data + later) == frame(data),
        frame(data) matches Ok(Some(len)) ==> (data + later).take(len) == data.take(len) && (data + later).skip(len)
            == data.skip(len) + later,
{
    parser_stays_in_the_buffer(data, 0);
    let after_begin = field_at(data, 0).0;
    parser_stays_in_the_buffer(data, after_begin);
    lemma_field_extends(data, later, 0);
    lemma_field_extends(data, later, after_begin);
    let len = frame(data)->Ok_0->Some_0;
    assert((data + later).take(len) =~= data.take(len));
    assert((data + later).skip(len) =~= data.skip(len) + later);
}

/// A value that runs to the end of the buffer holds no delimiter, and goes on
/// with what arrives.
proof fn lemma_open_value(data: Seq<u8>, later: Seq<u8>, pos: int)
    requires
        0 <= pos <= data.len(),
        value_end(data, pos) == data.len(),
    ensures
        forall|i: int| pos <= i < data.len() ==> #[trigger] data[i] != SOH,
        data.len() <= value_end(data + later, pos) <= (data + later).len(),
    decreases data.len() - pos,
{
    if pos < data.len() {
        assert((data + later)[pos] == data[pos]);
        lemma_open_value(data, later, pos + 1);
    } else {
        lemma_value_end_bounds(data + later, pos);
    }
}

/// What comes before the end of a number is a number, once it holds a digit.
proof fn lemma_number_prefix(bytes: Seq<u8>, k: int)
    requires
        usize_value(bytes) is Some,
        0 < k <= bytes.len(),
        bytes.take(k) != seq![PLUS],
    ensures
        usize_value(bytes.take(k)) is Some,
{
    let prefix = bytes.take(k);
    let from: int = if bytes[0] == PLUS {
        1
    } else {
        0
    };
    let digits = bytes.skip(from);
    assert(bytes.skip(0) =~= bytes);
    if k == from {
        assert(prefix =~= seq![PLUS]);
    }
    assert(prefix[0] == bytes[0]);
    assert(prefix.skip(0) =~= prefix);
    assert(prefix.skip(from) =~= digits.take(k - from));
    assert(all_digits(prefix.skip(from))) by {
        assert forall|i: int| 0 <= i < prefix.skip(from).len() implies is_digit(#[trigger] prefix.skip(from)[i]) by {
            assert(is_digit(digits[i]));
        }
    }
    lemma_digits_none_below_zero(digits);
    lemma_digits_value_prefix(digits, k - from);
}

/// A stream may be cut anywhere: what will be a message once the rest of it has
/// arrived is never refused before.
pub proof fn awaited_message_is_never_refused(data: Seq<u8>, later: Seq<u8>)
    requires
        frame(data + later) matches Ok(Some(_)),
    ensures
        frame(data) is Ok,
{
    let whole = data + later;
    parser_stays_in_the_buffer(data, 0);
    if field_at(data, 0).1 is Some {
        lemma_scan_tag_extends(data, later, 0, 0);
        let after_begin = field_at(data, 0).0;
        parser_stays_in_the_buffer(data, after_begin);
        if after_begin < data.len() && field_at(data, after_begin).1 is Some {
            lemma_field_extends(data, later, 0);
            lemma_scan_tag_extends(data, later, after_begin, 0);
            lemma_scan_tag_bounds(data, after_begin, 0);
            let start = scan_tag(data, after_begin, 0).0 + 1;
            let end = value_end(data, start);
            lemma_value_end_bounds(data, start);
            if end < data.len() {
                lemma_value_end_extends(data, later, start);
                assert(whole.subrange(start, end) =~= data.subrange(start, end));
            } else {
                lemma_open_value(data, later, start);
                let length = data.subrange(start, end);
                let full = whole.subrange(start, value_end(whole, start));
                assert(full.take(end - start) =~= length);
                assert(data[start - 1] == EQUALS) by {
                    lemma_scan_tag_finds_equals(data, after_begin, 0);
                }
                assert(data.last() == data[data.len() - 1]);
                if length.len() > 0 && length != seq![PLUS] {
                    lemma_number_prefix(full, end - start);
                }
            }
        }
    }
}

proof fn lemma_scan_tag_finds_equals(data: Seq<u8>, pos: int, t: nat)
    requires
        0 <= pos <= data.len(),
        scan_tag(data, pos, t).1 is Some,
    ensures
        data[scan_tag(data, pos, t).0] == EQUALS,
    decreases data.len() - pos,
{
    if pos < data.len() && data[pos] != EQUALS {
        lemma_scan_tag_finds_equals(data, pos + 1, (t * 10 + (data[pos] - 48)) as nat);
    }
}

} // verus!
