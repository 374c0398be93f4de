//! Messages from and to their wire format.
use bytes::BytesMut;
use vstd::prelude::*;
use vstd::utf8::*;

use crate::buffer::{buffer_bytes, buffer_slice};
use crate::errors::{LoadError, LoadFault, ParsingError, ParsingFault};
use crate::fix::parser::{
    field_at, field_bytes, parser_stays_in_the_buffer, FixField, FixParser, EQUALS, SOH,
};
use crate::fix::raw_msg::{single_field, value_text, FieldText, RawMessage, ValType};
use crate::fix::tag;
use crate::text::{
    all_digits, decimal_bytes, decimal_text, digits_value, lemma_decimal_encoded, read_digits,
};

verus! {

pub const FIX_VERSION: &'static str = "FIX.4.4";

/// Reads and writes FIX messages.
pub struct FixCodec;

/// The fields of a buffer from `pos` on, up to the first place where no
/// well-formed field follows.
pub open spec fn fields_from(data: Seq<u8>, pos: int) -> Seq<(u32, Seq<u8>)>
    decreases data.len() - pos,
{
    match field_at(data, pos) {
        (next, Some(field)) => if pos < next <= data.len() {
            seq![field] + fields_from(data, next)
        } else {
            seq![]
        },
        (_, None) => seq![],
    }
}

/// The fields of a buffer from `pos` on, up to and with the first MDEntryNo, or
/// up to the first place where no well-formed field follows; and the offset at
/// which reading goes on.
pub open spec fn head_from(data: Seq<u8>, pos: int) -> (Seq<(u32, Seq<u8>)>, int)
    decreases data.len() - pos,
{
    match field_at(data, pos) {
        (next, Some(field)) => if field.0 == tag::MD_ENTRY_NO {
            (seq![field], next)
        } else if pos < next <= data.len() {
            (seq![field] + head_from(data, next).0, head_from(data, next).1)
        } else {
            (seq![], pos)
        },
        (next, None) => (seq![], next),
    }
}

/// The fields of a repeating group that have been taken over, and what stopped
/// that, if anything did.
#[verifier::ext_equal]
pub struct Group {
    pub fields: Seq<(u32, FieldText)>,
    pub fault: Option<ParsingFault>,
}

/// Takes over one field as a single text.
pub open spec fn take_single(group: Group, field: (u32, Seq<u8>)) -> Group {
    match single_field(field.0, field.1) {
        Ok(f) => Group { fields: group.fields.push(f), ..group },
        Err(fault) => Group { fault: Some(fault), ..group },
    }
}

/// The header of a message: every field becomes a single text.
pub open spec fn header_group(fields: Seq<(u32, Seq<u8>)>) -> Group
    decreases fields.len(),
{
    if fields.len() == 0 {
        Group { fields: seq![], fault: None }
    } else {
        let before = header_group(fields.drop_last());
        if before.fault is Some {
            before
        } else {
            take_single(before, fields.last())
        }
    }
}

/// The tags of an entry in the repeating group of a market data message.
pub open spec fn is_entry_tag(tag: u32) -> bool {
    tag == tag::MD_ENTRY_NO || tag == tag::MD_ENTRY_TYPE || tag == tag::MD_ENTRY_PX || tag == tag::MD_ENTRY_SIZE
        || tag == tag::MD_ENTRY_DATE || tag == tag::MD_ENTRY_TIME
}

/// The repeating group of a trade: every entry field becomes a single text, the
/// trailing checksum is passed over, and any other tag is an error.
pub open spec fn trade_group(fields: Seq<(u32, Seq<u8>)>) -> Group
    decreases fields.len(),
{
    if fields.len() == 0 {
        Group { fields: seq![], fault: None }
    } else {
        let before = trade_group(fields.drop_last());
        if before.fault is Some || fields.last().0 == tag::CHECK_SUM {
            before
        } else if is_entry_tag(fields.last().0) {
            take_single(before, fields.last())
        } else {
            Group { fault: Some(ParsingFault::FailToLoad(LoadFault::UnexpectedTag)), ..before }
        }
    }
}

/// The repeating group of a quote while it is read: the single fields, whether
/// the second entry has begun, and the prices and sizes of the two entries.
#[verifier::ext_equal]
pub struct QuoteGroup {
    pub group: Group,
    pub second: bool,
    pub px: (Seq<char>, Seq<char>),
    pub size: (Seq<char>, Seq<char>),
}

/// A pair with one side replaced.
pub open spec fn with_side(pair: (Seq<char>, Seq<char>), second: bool, text: Seq<char>) -> (Seq<char>, Seq<char>) {
    if second {
        (pair.0, text)
    } else {
        (text, pair.1)
    }
}

/// What one field does to the repeating group of a quote.
pub open spec fn quote_step(before: QuoteGroup, field: (u32, Seq<u8>)) -> QuoteGroup {
    if field.0 == tag::CHECK_SUM {
        before
    } else if !is_entry_tag(field.0) {
        QuoteGroup {
            group: Group {
                fault: Some(ParsingFault::FailToLoad(LoadFault::UnexpectedTag)),
                ..before.group
            },
            ..before
        }
    } else if field.0 == tag::MD_ENTRY_PX || field.0 == tag::MD_ENTRY_SIZE {
        match single_field(field.0, field.1) {
            Ok((t, FieldText::Single(text))) => if t == tag::MD_ENTRY_PX {
                QuoteGroup { px: with_side(before.px, before.second, text), ..before }
            } else {
                QuoteGroup { size: with_side(before.size, before.second, text), ..before }
            },
            Ok(_) => before,
            Err(fault) => QuoteGroup { group: Group { fault: Some(fault), ..before.group }, ..before },
        }
    } else {
        QuoteGroup {
            group: take_single(before.group, field),
            second: before.second || field.0 == tag::MD_ENTRY_NO,
            ..before
        }
    }
}

/// The repeating group of a quote: prices and sizes go to the first entry until
/// MDEntryNo occurs again and to the second from there on, the other entry
/// fields become single texts, the trailing checksum is passed over, and any
/// other tag is an error.
pub open spec fn quote_group(fields: Seq<(u32, Seq<u8>)>) -> QuoteGroup
    decreases fields.len(),
{
    if fields.len() == 0 {
        QuoteGroup {
            group: Group { fields: seq![], fault: None },
            second: false,
            px: (seq![], seq![]),
            size: (seq![], seq![]),
        }
    } else {
        let before = quote_group(fields.drop_last());
        if before.group.fault is Some {
            before
        } else {
            quote_step(before, fields.last())
        }
    }
}

/// What a quote's repeating group adds to its message: its single fields, then
/// the two prices and the two sizes.
pub open spec fn quote_fields(quote: QuoteGroup) -> Seq<(u32, FieldText)> {
    quote.group.fields.push((tag::MD_ENTRY_PX, FieldText::Pair(quote.px.0, quote.px.1))).push(
        (tag::MD_ENTRY_SIZE, FieldText::Pair(quote.size.0, quote.size.1)),
    )
}

/// Whether an MDEntryNo announces a trade: it denotes one. Anything else
/// announces a quote.
pub open spec fn announces_trade(value: Seq<u8>) -> bool {
    all_digits(value) && digits_value(value) == 1
}

/// The message that a header and the fields after it become.
pub open spec fn assembled(head: Seq<(u32, Seq<u8>)>, tail: Seq<(u32, Seq<u8>)>) -> Result<
    Seq<(u32, FieldText)>,
    ParsingFault,
> {
    let header = header_group(head);
    if header.fault is Some {
        Err(header.fault->Some_0)
    } else if head.len() > 0 && head.last().0 == tag::MD_ENTRY_NO && announces_trade(head.last().1) {
        let trade = trade_group(tail);
        match trade.fault {
            Some(fault) => Err(fault),
            None => Ok(header.fields + trade.fields),
        }
    } else {
        let quote = quote_group(tail);
        match quote.group.fault {
            Some(fault) => Err(fault),
            None => Ok(header.fields + quote_fields(quote)),
        }
    }
}

/// The message that a buffer holds.
pub open spec fn decoded(data: Seq<u8>) -> Result<Seq<(u32, FieldText)>, ParsingFault> {
    assembled(head_from(data, 0).0, fields_from(data, head_from(data, 0).1))
}

proof fn lemma_fields_step(data: Seq<u8>, pos: int)
    requires
        0 <= pos <= data.len(),
    ensures
        match field_at(data, pos) {
            (next, Some(field)) => pos < next <= data.len() && fields_from(data, pos) == seq![field]
                + fields_from(data, next),
            (next, None) => fields_from(data, pos) == Seq::<(u32, Seq<u8>)>::empty(),
        },
{
    parser_stays_in_the_buffer(data, pos);
}

proof fn lemma_header_fault_stays(seen: Seq<(u32, Seq<u8>)>, rest: Seq<(u32, Seq<u8>)>)
    requires
        header_group(seen).fault is Some,
    ensures
        header_group(seen + rest) == header_group(seen),
    decreases rest.len(),
{
    if rest.len() == 0 {
        assert(seen + rest =~= seen);
    } else {
        lemma_header_fault_stays(seen, rest.drop_last());
        assert((seen + rest).drop_last() =~= seen + rest.drop_last());
    }
}

proof fn lemma_trade_fault_stays(seen: Seq<(u32, Seq<u8>)>, rest: Seq<(u32, Seq<u8>)>)
    requires
        trade_group(seen).fault is Some,
    ensures
        trade_group(seen + rest) == trade_group(seen),
    decreases rest.len(),
{
    if rest.len() == 0 {
        assert(seen + rest =~= seen);
    } else {
        lemma_trade_fault_stays(seen, rest.drop_last());
        assert((seen + rest).drop_last() =~= seen + rest.drop_last());
    }
}

proof fn lemma_quote_fault_stays(seen: Seq<(u32, Seq<u8>)>, rest: Seq<(u32, Seq<u8>)>)
    requires
        quote_group(seen).group.fault is Some,
    ensures
        quote_group(seen + rest) == quote_group(seen),
    decreases rest.len(),
{
    if rest.len() == 0 {
        assert(seen + rest =~= seen);
    } else {
        lemma_quote_fault_stays(seen, rest.drop_last());
        assert((seen + rest).drop_last() =~= seen + rest.drop_last());
    }
}

/// Reads the repeating group of a quote into `raw_msg`.
fn parse_quote(parser: &mut FixParser, raw_msg: &mut RawMessage) -> (r: Result<(), ParsingError>)
    requires
        0 <= old(parser).offset() <= old(parser).data().len(),
    ensures
        final(parser).data() == old(parser).data(),
        ({
            let quote = quote_group(fields_from(old(parser).data(), old(parser).offset()));
            match r {
                Ok(()) => quote.group.fault is None && final(raw_msg)@ == old(raw_msg)@ + quote_fields(quote),
                Err(e) => quote.group.fault == Some(e@) && final(raw_msg)@ == old(raw_msg)@ + quote.group.fields,
            }
        }),
{
    let ghost data = parser.data();
    let ghost all = fields_from(data, parser.offset());
    let ghost base = raw_msg@;
    let ghost mut seen: Seq<(u32, Seq<u8>)> = seq![];
    let mut second: bool = false;
    let mut px_first: String = String::new();
    let mut px_second: String = String::new();
    let mut size_first: String = String::new();
    let mut size_second: String = String::new();
    assert(seen + all =~= all);
    assert(base + quote_group(seen).group.fields =~= base);
    proof {
        reveal_strlit("");
        assert(""@ =~= seq![]);
    }
    loop
        invariant
            data == old(parser).data(),
            all == fields_from(old(parser).data(), old(parser).offset()),
            base == old(raw_msg)@,
            parser.data() == data,
            0 <= parser.offset() <= data.len(),
            seen + fields_from(data, parser.offset()) == all,
            raw_msg@ == base + quote_group(seen).group.fields,
            quote_group(seen) == (QuoteGroup {
                group: Group { fields: quote_group(seen).group.fields, fault: None },
                second,
                px: (px_first@, px_second@),
                size: (size_first@, size_second@),
            }),
        decreases data.len() - parser.offset(),
    {
        let ghost pos = parser.offset();
        let ghost before = quote_group(seen);
        let ghost rest = fields_from(data, pos);
        proof {
            lemma_fields_step(data, pos);
        }
        let field: FixField = match parser.next_field() {
            Some(field) => field,
            None => {
                assert(seen =~= all);
                raw_msg.push(tag::MD_ENTRY_PX, ValType::Pair((px_first, px_second)));
                raw_msg.push(tag::MD_ENTRY_SIZE, ValType::Pair((size_first, size_second)));
                assert(raw_msg@ =~= base + quote_fields(quote_group(all)));
                return Ok(());
            },
        };
        let ghost now = seen.push((field.tag, field.value@));
        proof {
            assert(now.drop_last() =~= seen);
            assert(now + fields_from(data, parser.offset()) =~= seen + rest);
            if quote_group(now).group.fault is Some {
                lemma_quote_fault_stays(now, fields_from(data, parser.offset()));
            }
        }
        if field.tag == tag::MD_ENTRY_PX || field.tag == tag::MD_ENTRY_SIZE {
            match value_text(field.value) {
                Ok(text) => {
                    if field.tag == tag::MD_ENTRY_PX {
                        if second {
                            px_second = text;
                        } else {
                            px_first = text;
                        }
                    } else {
                        if second {
                            size_second = text;
                        } else {
                            size_first = text;
                        }
                    }
                },
                Err(e) => {
                    return Err(e);
                },
            }
        } else if field.tag == tag::MD_ENTRY_NO || field.tag == tag::MD_ENTRY_DATE || field.tag == tag::MD_ENTRY_TIME
            || field.tag == tag::MD_ENTRY_TYPE {
            match raw_msg.append_single(&field) {
                Ok(()) => {},
                Err(e) => {
                    return Err(e);
                },
            }
            if field.tag == tag::MD_ENTRY_NO {
                second = true;
            }
            assert(raw_msg@ =~= base + quote_group(now).group.fields);
        } else if field.tag != tag::CHECK_SUM {
            return Err(ParsingError::FailToLoad(LoadError::UnexpectedTag));
        }
        proof {
            parser_stays_in_the_buffer(data, pos);
            seen = now;
        }
    }
}

/// Reads the repeating group of a trade into `raw_msg`.
fn parse_trade(parser: &mut FixParser, raw_msg: &mut RawMessage) -> (r: Result<(), ParsingError>)
    requires
        0 <= old(parser).offset() <= old(parser).data().len(),
    ensures
        final(parser).data() == old(parser).data(),
        ({
            let trade = trade_group(fields_from(old(parser).data(), old(parser).offset()));
            &&& final(raw_msg)@ == old(raw_msg)@ + trade.fields
            &&& match r {
                Ok(()) => trade.fault is None,
                Err(e) => trade.fault == Some(e@),
            }
        }),
{
    let ghost data = parser.data();
    let ghost all = fields_from(data, parser.offset());
    let ghost base = raw_msg@;
    let ghost mut seen: Seq<(u32, Seq<u8>)> = seq![];
    assert(seen + all =~= all);
    assert(base + trade_group(seen).fields =~= base);
    loop
        invariant
            data == old(parser).data(),
            all == fields_from(old(parser).data(), old(parser).offset()),
            base == old(raw_msg)@,
            parser.data() == data,
            0 <= parser.offset() <= data.len(),
            seen + fields_from(data, parser.offset()) == all,
            raw_msg@ == base + trade_group(seen).fields,
            trade_group(seen).fault is None,
        decreases data.len() - parser.offset(),
    {
        let ghost pos = parser.offset();
        let ghost rest = fields_from(data, pos);
        proof {
            lemma_fields_step(data, pos);
        }
        let field: FixField = match parser.next_field() {
            Some(field) => field,
            None => {
                assert(seen =~= all);
                return Ok(());
            },
        };
        let ghost now = seen.push((field.tag, field.value@));
        proof {
            assert(now.drop_last() =~= seen);
            assert(now + fields_from(data, parser.offset()) =~= seen + rest);
            if trade_group(now).fault is Some {
                lemma_trade_fault_stays(now, fields_from(data, parser.offset()));
            }
        }
        if field.tag == tag::MD_ENTRY_NO || field.tag == tag::MD_ENTRY_DATE || field.tag == tag::MD_ENTRY_TIME
            || field.tag == tag::MD_ENTRY_TYPE || field.tag == tag::MD_ENTRY_SIZE || field.tag == tag::MD_ENTRY_PX {
            match raw_msg.append_single(&field) {
                Ok(()) => {},
                Err(e) => {
                    return Err(e);
                },
            }
            assert(raw_msg@ =~= base + trade_group(now).fields);
        } else if field.tag != tag::CHECK_SUM {
            return Err(ParsingError::FailToLoad(LoadError::UnexpectedTag));
        }
        proof {
            parser_stays_in_the_buffer(data, pos);
            seen = now;
        }
    }
}

/// Reads the fields up to MDEntryNo into `raw_msg`, and says whether a trade
/// follows.
fn parse_header(parser: &mut FixParser, raw_msg: &mut RawMessage) -> (r: Result<bool, ParsingError>)
    requires
        0 <= old(parser).offset() <= old(parser).data().len(),
    ensures
        final(parser).data() == old(parser).data(),
        0 <= final(parser).offset() <= final(parser).data().len(),
        ({
            let (head, next) = head_from(old(parser).data(), old(parser).offset());
            &&& final(raw_msg)@ == old(raw_msg)@ + header_group(head).fields
            &&& match r {
                Ok(trade) => header_group(head).fault is None && final(parser).offset() == next && trade == (head.len()
                    > 0 && head.last().0 == tag::MD_ENTRY_NO && announces_trade(head.last().1)),
                Err(e) => header_group(head).fault == Some(e@),
            }
        }),
{
    let ghost data = parser.data();
    let ghost (all, stop) = head_from(data, parser.offset());
    let ghost base = raw_msg@;
    let ghost mut seen: Seq<(u32, Seq<u8>)> = seq![];
    assert(seen + all =~= all);
    assert(base + header_group(seen).fields =~= base);
    loop
        invariant
            data == old(parser).data(),
            (all, stop) == head_from(old(parser).data(), old(parser).offset()),
            base == old(raw_msg)@,
            parser.data() == data,
            0 <= parser.offset() <= data.len(),
            seen + head_from(data, parser.offset()).0 == all,
            head_from(data, parser.offset()).1 == stop,
            raw_msg@ == base + header_group(seen).fields,
            header_group(seen).fault is None,
            seen.len() > 0 ==> seen.last().0 != tag::MD_ENTRY_NO,
        decreases data.len() - parser.offset(),
    {
        let ghost pos = parser.offset();
        let ghost rest = head_from(data, pos).0;
        proof {
            parser_stays_in_the_buffer(data, pos);
        }
        let field: FixField = match parser.next_field() {
            Some(field) => field,
            None => {
                assert(seen =~= all);
                return Ok(false);
            },
        };
        let ghost now = seen.push((field.tag, field.value@));
        let ghost after = if field.tag == tag::MD_ENTRY_NO {
            seq![]
        } else {
            head_from(data, parser.offset()).0
        };
        proof {
            assert(now.drop_last() =~= seen);
            assert(now + after =~= seen + rest);
            if header_group(now).fault is Some {
                lemma_header_fault_stays(now, after);
            }
        }
        match raw_msg.append_single(&field) {
            Ok(()) => {},
            Err(e) => {
                return Err(e);
            },
        }
        assert(raw_msg@ =~= base + header_group(now).fields);
        if field.tag == tag::MD_ENTRY_NO {
            assert(now =~= all);
            assert(field.value@.skip(0) =~= field.value@);
            return Ok(
                match read_digits(field.value, 0, 1) {
                    Some(v) => v == 1,
                    None => false,
                },
            );
        }
        proof {
            seen = now;
        }
    }
}

/// Whether a field is left out of the body of a message: the codec itself
/// writes these three.
pub open spec fn is_framing_tag(tag: u32) -> bool {
    tag == tag::BEGIN_STRING || tag == tag::BODY_LENGTH || tag == tag::CHECK_SUM
}

/// Whether a message holds a pair among the fields of its body. Such a message
/// is not written.
pub open spec fn has_pair(fields: Seq<(u32, FieldText)>) -> bool {
    exists|i: int| 0 <= i < fields.len() && !is_framing_tag(#[trigger] fields[i].0) && fields[i].1 is Pair
}

/// The body of a message on the wire.
pub open spec fn body_bytes(fields: Seq<(u32, FieldText)>) -> Seq<u8>
    decreases fields.len(),
{
    if fields.len() == 0 {
        seq![]
    } else {
        let before = body_bytes(fields.drop_last());
        match fields.last() {
            (t, FieldText::Single(text)) => if is_framing_tag(t) {
                before
            } else {
                before + field_bytes(t, encode_utf8(text))
            },
            _ => before,
        }
    }
}

/// The sum of the bytes.
pub open spec fn byte_sum(bytes: Seq<u8>) -> nat
    decreases bytes.len(),
{
    if bytes.len() == 0 {
        0
    } else {
        byte_sum(bytes.drop_last()) + bytes.last() as nat
    }
}

/// A number below a thousand in three digits.
pub open spec fn three_digits(n: nat) -> Seq<u8> {
    seq![(48 + n / 100) as u8, (48 + n / 10 % 10) as u8, (48 + n % 10) as u8]
}

/// BeginString and BodyLength.
pub open spec fn preamble_bytes(body_len: nat) -> Seq<u8> {
    field_bytes(tag::BEGIN_STRING, encode_utf8(FIX_VERSION@)) + field_bytes(
        tag::BODY_LENGTH,
        decimal_bytes(body_len),
    )
}

/// The checksum of all that precedes it.
pub open spec fn trailer_bytes(bytes: Seq<u8>) -> Seq<u8> {
    field_bytes(tag::CHECK_SUM, three_digits(byte_sum(bytes) % 256))
}

/// A message on the wire: the preamble with the length of the body, the body,
/// and the checksum.
pub open spec fn wire_bytes(fields: Seq<(u32, FieldText)>) -> Seq<u8> {
    let body = body_bytes(fields);
    let full = preamble_bytes(body.len()) + body;
    full + trailer_bytes(full)
}

/// Appends a field to a buffer.
fn put_field(buf: &mut BytesMut, tag: u32, value: &[u8])
    requires
        buffer_bytes(*old(buf)).len() + field_bytes(tag, value@).len() <= isize::MAX,
    ensures
        buffer_bytes(*final(buf)) == buffer_bytes(*old(buf)) + field_bytes(tag, value@),
{
    let digits: String = decimal_text(tag as u64);
    proof {
        lemma_decimal_encoded(tag as nat);
    }
    buf.extend_from_slice(digits.as_str().as_bytes());
    buf.extend_from_slice(&[EQUALS]);
    buf.extend_from_slice(value);
    buf.extend_from_slice(&[SOH]);
    assert(buffer_bytes(*buf) =~= buffer_bytes(*old(buf)) + field_bytes(tag, value@));
}

/// The sum of the bytes, modulo 256.
fn checksum(bytes: &[u8]) -> (sum: u32)
    ensures
        sum == byte_sum(bytes@) % 256,
{
    let mut sum: u32 = 0;
    let mut i: usize = 0;
    assert(bytes@.take(0) =~= Seq::<u8>::empty());
    while i < bytes.len()
        invariant
            i <= bytes@.len(),
            sum == byte_sum(bytes@.take(i as int)) % 256,
        decreases bytes@.len() - i,
    {
        assert(bytes@.take(i + 1).drop_last() =~= bytes@.take(i as int));
        sum = (sum + bytes[i] as u32) % 256;
        i = i + 1;
    }
    assert(bytes@.take(i as int) =~= bytes@);
    sum
}

proof fn lemma_body_prefix(fields: Seq<(u32, FieldText)>, k: int)
    requires
        0 <= k <= fields.len(),
    ensures
        body_bytes(fields.take(k)).len() <= body_bytes(fields).len(),
    decreases fields.len() - k,
{
    if k < fields.len() {
        lemma_body_prefix(fields, k + 1);
        assert(fields.take(k + 1).drop_last() =~= fields.take(k));
    } else {
        assert(fields.take(k) =~= fields);
    }
}

/// Whether a message in its wire format fits into a buffer that holds `used`
/// bytes already.
pub fn wire_fits(msg: &RawMessage, used: usize) -> (r: bool)
    ensures
        r == (used + wire_bytes(msg@).len() <= isize::MAX),
{
    let limit: u128 = isize::MAX as u128;
    let mut body: u128 = 0;
    let mut i: usize = 0;
    assert(msg@.take(0) =~= Seq::<(u32, FieldText)>::empty());
    while i < msg.fields.len()
        invariant
            i <= msg.fields@.len(),
            limit == isize::MAX,
            body == body_bytes(msg@.take(i as int)).len(),
            body <= limit,
        decreases msg.fields@.len() - i,
    {
        assert(msg@[i as int] == (msg.fields@[i as int].0, msg.fields@[i as int].1@));
        assert(msg@.take(i + 1).drop_last() =~= msg@.take(i as int));
        proof {
            lemma_body_prefix(msg@, i + 1);
        }
        let t: u32 = msg.fields[i].0;
        if !(t == tag::BEGIN_STRING || t == tag::BODY_LENGTH || t == tag::CHECK_SUM) {
            match &msg.fields[i].1 {
                ValType::Single(text) => {
                    let digits: String = decimal_text(t as u64);
                    proof {
                        lemma_decimal_encoded(t as nat);
                    }
                    body = body + digits.as_str().as_bytes().len() as u128 + text.as_str().as_bytes().len() as u128
                        + 2;
                },
                ValType::Pair(_) => {},
            }
        }
        if body > limit {
            return false;
        }
        i = i + 1;
    }
    assert(msg@.take(i as int) =~= msg@);
    let length: String = decimal_text(body as u64);
    proof {
        lemma_decimal_encoded(body as nat);
        reveal_with_fuel(decimal_bytes, 3);
    }
    let preamble: u128 = FIX_VERSION.as_bytes().len() as u128 + length.as_str().as_bytes().len() as u128 + 6;
    used as u128 + preamble + body + 7 <= limit
}

impl FixCodec {
    /// Reads the message that `src` holds, and leaves `src` as it is.
    pub fn decode(&mut self, src: &mut BytesMut) -> (r: Result<Option<RawMessage>, ParsingError>)
        ensures
            buffer_bytes(*final(src)) == buffer_bytes(*old(src)),
            match r {
                Ok(Some(msg)) => decoded(buffer_bytes(*old(src))) == Ok::<Seq<(u32, FieldText)>, ParsingFault>(msg@),
                Ok(None) => false,
                Err(e) => decoded(buffer_bytes(*old(src))) == Err::<Seq<(u32, FieldText)>, ParsingFault>(e@),
            },
    {
        let mut rtn: RawMessage = RawMessage::new(10);
        let mut parser: FixParser = FixParser::new(buffer_slice(src));
        let ghost data = buffer_bytes(*old(src));
        let ghost (head, next) = head_from(data, 0);
        let ghost tail = fields_from(data, next);
        let trade: bool = match parse_header(&mut parser, &mut rtn) {
            Ok(trade) => trade,
            Err(e) => {
                return Err(e);
            },
        };
        assert(rtn@ =~= header_group(head).fields);
        if trade {
            match parse_trade(&mut parser, &mut rtn) {
                Ok(()) => {},
                Err(e) => {
                    return Err(e);
                },
            }
        } else {
            match parse_quote(&mut parser, &mut rtn) {
                Ok(()) => {},
                Err(e) => {
                    return Err(e);
                },
            }
        }
        Ok(Some(rtn))
    }

    /// Appends `msg` to `dst` in its wire format, or leaves `dst` as it is where
    /// the message holds a pair.
    pub fn encode(&mut self, msg: RawMessage, dst: &mut BytesMut) -> (r: Result<(), ParsingError>)
        requires
            buffer_bytes(*old(dst)).len() + wire_bytes(msg@).len() <= isize::MAX,
        ensures
            match r {
                Ok(()) => !has_pair(msg@) && buffer_bytes(*final(dst)) == buffer_bytes(*old(dst)) + wire_bytes(msg@),
                Err(e) => has_pair(msg@) && e@ == ParsingFault::FailToLoad(LoadFault::PairValue) && buffer_bytes(
                    *final(dst),
                ) == buffer_bytes(*old(dst)),
            },
    {
        let mut body: BytesMut = BytesMut::new();
        let mut i: usize = 0;
        assert(msg@.take(0) =~= Seq::<(u32, FieldText)>::empty());
        while i < msg.fields.len()
            invariant
                i <= msg.fields@.len(),
                wire_bytes(msg@).len() <= isize::MAX,
                buffer_bytes(body) == body_bytes(msg@.take(i as int)),
                forall|j: int| 0 <= j < i ==> is_framing_tag(#[trigger] msg@[j].0) || !(msg@[j].1 is Pair),
                *dst == *old(dst),
            decreases msg.fields@.len() - i,
        {
            assert(msg@[i as int] == (msg.fields@[i as int].0, msg.fields@[i as int].1@));
            assert(msg@.take(i + 1).drop_last() =~= msg@.take(i as int));
            proof {
                lemma_body_prefix(msg@, i + 1);
            }
            let t: u32 = msg.fields[i].0;
            if !(t == tag::BEGIN_STRING || t == tag::BODY_LENGTH || t == tag::CHECK_SUM) {
                match &msg.fields[i].1 {
                    ValType::Single(text) => {
                        put_field(&mut body, t, text.as_str().as_bytes());
                    },
                    ValType::Pair(_) => {
                        assert(!is_framing_tag(msg@[i as int].0) && msg@[i as int].1 is Pair);
                        return Err(ParsingError::FailToLoad(LoadError::PairValue));
                    },
                }
            }
            i = i + 1;
        }
        assert(msg@.take(i as int) =~= msg@);
        let ghost sent = body_bytes(msg@);
        let mut full: BytesMut = BytesMut::new();
        put_field(&mut full, tag::BEGIN_STRING, FIX_VERSION.as_bytes());
        let length: String = decimal_text(buffer_slice(&body).len() as u64);
        proof {
            lemma_decimal_encoded(sent.len());
        }
        put_field(&mut full, tag::BODY_LENGTH, length.as_str().as_bytes());
        full.extend_from_slice(buffer_slice(&body));
        assert(buffer_bytes(full) =~= preamble_bytes(sent.len()) + sent);
        let sum: u32 = checksum(buffer_slice(&full));
        let digits: [u8; 3] = [(48 + sum / 100) as u8, (48 + sum / 10 % 10) as u8, (48 + sum % 10) as u8];
        assert(digits@ =~= three_digits(sum as nat));
        dst.extend_from_slice(buffer_slice(&full));
        put_field(dst, tag::CHECK_SUM, &digits);
        assert(buffer_bytes(*dst) =~= buffer_bytes(*old(dst)) + wire_bytes(msg@));
        Ok(())
    }
}

} // verus!
