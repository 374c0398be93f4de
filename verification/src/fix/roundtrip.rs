//! What a message becomes when it is written and read back.
use vstd::prelude::*;
use vstd::utf8::*;

use crate::errors::ParsingFault;
use crate::fix::codec::{
    announces_trade, assembled, body_bytes, byte_sum, decoded, fields_from, has_pair, head_from,
    header_group, is_entry_tag, is_framing_tag, preamble_bytes, quote_fields, quote_group,
    three_digits, trade_group, wire_bytes, Group, FIX_VERSION,
};
use crate::fix::parser::{
    delimiter_free, field_at, field_bytes, lemma_digits_delimiter_free, written_field_is_read_back,
    SOH,
};
use crate::fix::raw_msg::{pair_of, value_from, value_of, FieldText};
use crate::fix::tag;
use crate::text::{
    all_digits, decimal, decimal_bytes, is_digit, lemma_decimal_bytes, lemma_decimal_encoded,
};

verus! {

/// Fields one after another on the wire.
pub open spec fn fields_bytes(fields: Seq<(u32, Seq<u8>)>) -> Seq<u8>
    decreases fields.len(),
{
    if fields.len() == 0 {
        seq![]
    } else {
        fields_bytes(fields.drop_last()) + field_bytes(fields.last().0, fields.last().1)
    }
}

/// The fields of a message that its body is made of.
pub open spec fn body_fields(fields: Seq<(u32, FieldText)>) -> Seq<(u32, FieldText)> {
    fields.filter(|f: (u32, FieldText)| !is_framing_tag(f.0))
}

/// The fields that the body of a message holds on the wire.
pub open spec fn sent_fields(fields: Seq<(u32, FieldText)>) -> Seq<(u32, Seq<u8>)>
    decreases fields.len(),
{
    if fields.len() == 0 {
        seq![]
    } else {
        let before = sent_fields(fields.drop_last());
        match fields.last() {
            (t, FieldText::Single(text)) => if is_framing_tag(t) {
                before
            } else {
                before.push((t, encode_utf8(text)))
            },
            _ => before,
        }
    }
}

/// The fields that a whole message holds on the wire.
pub open spec fn wire_fields(fields: Seq<(u32, FieldText)>) -> Seq<(u32, Seq<u8>)> {
    let body = body_bytes(fields);
    seq![
        (tag::BEGIN_STRING, encode_utf8(FIX_VERSION@)),
        (tag::BODY_LENGTH, decimal_bytes(body.len())),
    ] + sent_fields(fields) + seq![
        (tag::CHECK_SUM, three_digits(byte_sum(preamble_bytes(body.len()) + body) % 256)),
    ]
}

/// How many fields stand up to and with the first MDEntryNo, or in all.
pub open spec fn head_len(fields: Seq<(u32, Seq<u8>)>) -> nat
    decreases fields.len(),
{
    if fields.len() == 0 {
        0
    } else if fields[0].0 == tag::MD_ENTRY_NO {
        1
    } else {
        1 + head_len(fields.skip(1))
    }
}

/// Whether every value of a message can stand on the wire: none holds the
/// delimiter.
pub open spec fn writable(fields: Seq<(u32, FieldText)>) -> bool {
    forall|i: int|
        0 <= i < fields.len() ==> match #[trigger] fields[i].1 {
            FieldText::Single(text) => delimiter_free(encode_utf8(text)),
            FieldText::Pair(_, _) => true,
        }
}

/// The two fields that the codec puts in front of a message.
pub open spec fn preamble_fields(body_len: nat) -> Seq<(u32, FieldText)> {
    seq![
        (tag::BEGIN_STRING, FieldText::Single(FIX_VERSION@)),
        (tag::BODY_LENGTH, FieldText::Single(decimal(body_len))),
    ]
}

pub open spec fn all_delimiter_free(fields: Seq<(u32, Seq<u8>)>) -> bool {
    forall|i: int| 0 <= i < fields.len() ==> delimiter_free(#[trigger] fields[i].1)
}

pub open spec fn all_text(fields: Seq<(u32, Seq<u8>)>) -> bool {
    forall|i: int| 0 <= i < fields.len() ==> valid_utf8(#[trigger] fields[i].1)
}

/// Fields from the wire as single texts.
pub open spec fn as_singles(fields: Seq<(u32, Seq<u8>)>) -> Seq<(u32, FieldText)> {
    fields.map_values(|f: (u32, Seq<u8>)| (f.0, FieldText::Single(decode_utf8(f.1))))
}

proof fn lemma_fields_bytes_concat(a: Seq<(u32, Seq<u8>)>, b: Seq<(u32, Seq<u8>)>)
    ensures
        fields_bytes(a + b) == fields_bytes(a) + fields_bytes(b),
    decreases b.len(),
{
    if b.len() == 0 {
        assert(a + b =~= a);
        assert(fields_bytes(a) + fields_bytes(b) =~= fields_bytes(a));
    } else {
        lemma_fields_bytes_concat(a, b.drop_last());
        assert((a + b).drop_last() =~= a + b.drop_last());
        assert(fields_bytes(a + b) =~= fields_bytes(a) + fields_bytes(b));
    }
}

proof fn lemma_fields_bytes_one(f: (u32, Seq<u8>))
    ensures
        fields_bytes(seq![f]) == field_bytes(f.0, f.1),
{
    reveal_with_fuel(fields_bytes, 2);
    assert(seq![f].drop_last() =~= Seq::<(u32, Seq<u8>)>::empty());
    assert(fields_bytes(seq![f]) =~= field_bytes(f.0, f.1));
}

proof fn lemma_body_is_sent(fields: Seq<(u32, FieldText)>)
    ensures
        body_bytes(fields) == fields_bytes(sent_fields(fields)),
    decreases fields.len(),
{
    if fields.len() > 0 {
        lemma_body_is_sent(fields.drop_last());
        let before = sent_fields(fields.drop_last());
        match fields.last() {
            (t, FieldText::Single(text)) => {
                if !is_framing_tag(t) {
                    assert(before.push((t, encode_utf8(text))).drop_last() =~= before);
                }
            },
            _ => {},
        }
    }
}

proof fn lemma_wire_is_fields(fields: Seq<(u32, FieldText)>)
    ensures
        wire_bytes(fields) == fields_bytes(wire_fields(fields)),
{
    let body = body_bytes(fields);
    let f8 = (tag::BEGIN_STRING, encode_utf8(FIX_VERSION@));
    let f9 = (tag::BODY_LENGTH, decimal_bytes(body.len()));
    let f10 = (tag::CHECK_SUM, three_digits(byte_sum(preamble_bytes(body.len()) + body) % 256));
    lemma_body_is_sent(fields);
    lemma_fields_bytes_one(f8);
    lemma_fields_bytes_one(f9);
    lemma_fields_bytes_one(f10);
    assert(seq![f8, f9] =~= seq![f8] + seq![f9]);
    lemma_fields_bytes_concat(seq![f8], seq![f9]);
    lemma_fields_bytes_concat(seq![f8, f9], sent_fields(fields));
    lemma_fields_bytes_concat(seq![f8, f9] + sent_fields(fields), seq![f10]);
    assert(wire_bytes(fields) =~= fields_bytes(wire_fields(fields)));
}

/// The first of several fields on the wire is read back, and the others follow
/// it.
proof fn lemma_first_field(data: Seq<u8>, pos: int, fields: Seq<(u32, Seq<u8>)>)
    requires
        0 <= pos <= data.len(),
        data.skip(pos) == fields_bytes(fields),
        all_delimiter_free(fields),
        fields.len() > 0,
    ensures
        ({
            let next = pos + field_bytes(fields[0].0, fields[0].1).len();
            &&& field_at(data, pos) == (next, Some(fields[0]))
            &&& pos < next <= data.len()
            &&& data.skip(next) == fields_bytes(fields.skip(1))
            &&& all_delimiter_free(fields.skip(1))
        }),
{
    let f = fields[0];
    let rest = fields.skip(1);
    let first = field_bytes(f.0, f.1);
    let next = pos + first.len();
    assert(fields =~= seq![f] + rest);
    lemma_fields_bytes_concat(seq![f], rest);
    lemma_fields_bytes_one(f);
    assert(data.skip(pos).len() == data.len() - pos);
    assert(data.skip(next) =~= fields_bytes(rest)) by {
        assert forall|i: int| 0 <= i < data.len() - next implies data[next + i] == fields_bytes(rest)[i] by {
            assert(data.skip(pos)[first.len() + i] == fields_bytes(fields)[first.len() + i]);
        }
    }
    assert(data.subrange(pos, next) =~= first) by {
        assert forall|i: int| 0 <= i < first.len() implies data[pos + i] == first[i] by {
            assert(data.skip(pos)[i] == fields_bytes(fields)[i]);
        }
    }
    assert(delimiter_free(fields[0].1));
    written_field_is_read_back(data, pos, f.0, f.1);
    assert forall|i: int| 0 <= i < rest.len() implies delimiter_free(#[trigger] rest[i].1) by {
        assert(rest[i] == fields[i + 1]);
    }
}

pub(crate) proof fn lemma_fields_read_back(data: Seq<u8>, pos: int, fields: Seq<(u32, Seq<u8>)>)
    requires
        0 <= pos <= data.len(),
        data.skip(pos) == fields_bytes(fields),
        all_delimiter_free(fields),
    ensures
        fields_from(data, pos) == fields,
    decreases fields.len(),
{
    if fields.len() == 0 {
        assert(data.skip(pos).len() == 0);
        assert(fields_from(data, pos) =~= fields);
    } else {
        lemma_first_field(data, pos, fields);
        let next = pos + field_bytes(fields[0].0, fields[0].1).len();
        lemma_fields_read_back(data, next, fields.skip(1));
        assert(seq![fields[0]] + fields.skip(1) =~= fields);
    }
}

pub(crate) proof fn lemma_head_read_back(data: Seq<u8>, pos: int, fields: Seq<(u32, Seq<u8>)>)
    requires
        0 <= pos <= data.len(),
        data.skip(pos) == fields_bytes(fields),
        all_delimiter_free(fields),
    ensures
        head_len(fields) <= fields.len(),
        head_from(data, pos).0 == fields.take(head_len(fields) as int),
        fields_from(data, head_from(data, pos).1) == fields.skip(head_len(fields) as int),
    decreases fields.len(),
{
    if fields.len() == 0 {
        assert(data.skip(pos).len() == 0);
        assert(fields.take(0) =~= fields);
        assert(fields_from(data, pos) =~= fields.skip(0));
    } else {
        lemma_first_field(data, pos, fields);
        let next = pos + field_bytes(fields[0].0, fields[0].1).len();
        if fields[0].0 == tag::MD_ENTRY_NO {
            assert(fields.take(1) =~= seq![fields[0]]);
            lemma_fields_read_back(data, next, fields.skip(1));
        } else {
            let rest = fields.skip(1);
            lemma_head_read_back(data, next, rest);
            let h = head_len(rest) as int;
            assert(seq![fields[0]] + rest.take(h) =~= fields.take(h + 1));
            assert(rest.skip(h) =~= fields.skip(h + 1));
        }
    }
}

proof fn lemma_digits_are_text(bytes: Seq<u8>)
    requires
        all_digits(bytes),
    ensures
        valid_utf8(bytes),
{
    let chars = bytes.map_values(|b: u8| b as char);
    assert forall|i: int| 0 <= i < chars.len() implies chars[i] as u8 == bytes[i] && (chars[i] as u32) < 128 by {
        assert(is_digit(bytes[i]));
    }
    assert(is_ascii_chars(chars));
    is_ascii_chars_encode_utf8(chars);
    assert(encode_utf8(chars) =~= bytes);
    encode_utf8_valid_utf8(chars);
}

proof fn lemma_sent_values(fields: Seq<(u32, FieldText)>)
    requires
        writable(fields),
    ensures
        all_delimiter_free(sent_fields(fields)),
        all_text(sent_fields(fields)),
    decreases fields.len(),
{
    if fields.len() > 0 {
        let before = fields.drop_last();
        assert(writable(before)) by {
            assert forall|i: int| 0 <= i < before.len() implies match #[trigger] before[i].1 {
                FieldText::Single(text) => delimiter_free(encode_utf8(text)),
                FieldText::Pair(_, _) => true,
            } by {
                assert(before[i] == fields[i]);
            }
        }
        lemma_sent_values(before);
        match fields.last() {
            (t, FieldText::Single(text)) => {
                assert(fields[fields.len() - 1].1 == FieldText::Single(text));
                encode_utf8_valid_utf8(text);
            },
            _ => {},
        }
    }
}

proof fn lemma_wire_values(fields: Seq<(u32, FieldText)>)
    requires
        writable(fields),
    ensures
        all_delimiter_free(wire_fields(fields)),
        all_text(wire_fields(fields)),
{
    let body = body_bytes(fields);
    let sum = byte_sum(preamble_bytes(body.len()) + body) % 256;
    lemma_sent_values(fields);
    lemma_decimal_bytes(body.len());
    lemma_digits_delimiter_free(decimal_bytes(body.len()));
    lemma_digits_are_text(decimal_bytes(body.len()));
    assert(all_digits(three_digits(sum)));
    lemma_digits_delimiter_free(three_digits(sum));
    lemma_digits_are_text(three_digits(sum));
    reveal_strlit("FIX.4.4");
    is_ascii_chars_encode_utf8(FIX_VERSION@);
    encode_utf8_valid_utf8(FIX_VERSION@);
    assert(delimiter_free(encode_utf8(FIX_VERSION@))) by {
        let bytes = encode_utf8(FIX_VERSION@);
        if bytes.contains(SOH) {
            let i = choose|i: int| 0 <= i < bytes.len() && bytes[i] == SOH;
            assert(bytes[i] == FIX_VERSION@[i] as u8);
        }
    }
    let wire = wire_fields(fields);
    assert forall|i: int| 0 <= i < wire.len() implies delimiter_free(#[trigger] wire[i].1) && valid_utf8(
        wire[i].1,
    ) by {
        if 2 <= i < wire.len() - 1 {
            assert(wire[i] == sent_fields(fields)[i - 2]);
        }
    }
}

/// The decoder sees exactly the fields that the encoder wrote: BeginString,
/// BodyLength, the fields of the body in their order, and the checksum.
pub proof fn decoder_sees_what_was_written(fields: Seq<(u32, FieldText)>)
    requires
        writable(fields),
    ensures
        head_len(wire_fields(fields)) <= wire_fields(fields).len(),
        decoded(wire_bytes(fields)) == assembled(
            wire_fields(fields).take(head_len(wire_fields(fields)) as int),
            wire_fields(fields).skip(head_len(wire_fields(fields)) as int),
        ),
{
    lemma_wire_is_fields(fields);
    lemma_wire_values(fields);
    let data = wire_bytes(fields);
    assert(data.skip(0) =~= data);
    lemma_head_read_back(data, 0, wire_fields(fields));
}

proof fn lemma_sent_concat(a: Seq<(u32, FieldText)>, b: Seq<(u32, FieldText)>)
    ensures
        sent_fields(a + b) == sent_fields(a) + sent_fields(b),
    decreases b.len(),
{
    if b.len() == 0 {
        assert(a + b =~= a);
        assert(sent_fields(a) + sent_fields(b) =~= sent_fields(a));
    } else {
        lemma_sent_concat(a, b.drop_last());
        assert((a + b).drop_last() =~= a + b.drop_last());
        assert(sent_fields(a + b) =~= sent_fields(a) + sent_fields(b));
    }
}

/// Read as single texts, the fields of a body are the fields that were written.
proof fn lemma_sent_singles(fields: Seq<(u32, FieldText)>)
    requires
        !has_pair(fields),
    ensures
        as_singles(sent_fields(fields)) == body_fields(fields),
    decreases fields.len(),
{
    reveal(Seq::filter);
    if fields.len() == 0 {
        assert(as_singles(sent_fields(fields)) =~= body_fields(fields));
    } else {
        let before = fields.drop_last();
        assert(!has_pair(before)) by {
            if has_pair(before) {
                let i = choose|i: int|
                    0 <= i < before.len() && !is_framing_tag(#[trigger] before[i].0) && before[i].1 is Pair;
                assert(!is_framing_tag(fields[i].0) && fields[i].1 is Pair);
            }
        }
        lemma_sent_singles(before);
        let last = fields.last();
        assert(last == fields[fields.len() - 1]);
        assert(is_framing_tag(fields[fields.len() - 1].0) || last.1 is Single);
        match last {
            (t, FieldText::Single(text)) => {
                encode_utf8_decode_utf8(text);
            },
            _ => {},
        }
        assert(as_singles(sent_fields(fields)) =~= body_fields(fields));
    }
}

proof fn lemma_header_of_text(fields: Seq<(u32, Seq<u8>)>)
    requires
        all_text(fields),
    ensures
        header_group(fields) == (Group { fields: as_singles(fields), fault: None }),
    decreases fields.len(),
{
    if fields.len() == 0 {
        assert(as_singles(fields) =~= seq![]);
    } else {
        let before = fields.drop_last();
        assert forall|i: int| 0 <= i < before.len() implies valid_utf8(#[trigger] before[i].1) by {
            assert(before[i] == fields[i]);
        }
        lemma_header_of_text(before);
        assert(valid_utf8(fields[fields.len() - 1].1));
        assert(as_singles(fields) =~= as_singles(before).push(
            (fields.last().0, FieldText::Single(decode_utf8(fields.last().1))),
        ));
    }
}

/// Whether the fields of a message, but for those that the codec itself writes,
/// can stand in a repeating group.
pub open spec fn only_entry_fields(fields: Seq<(u32, FieldText)>) -> bool {
    forall|i: int|
        0 <= i < fields.len() ==> is_entry_tag(#[trigger] fields[i].0) || is_framing_tag(fields[i].0)
}

/// Whether MDEntryNo does not occur among the fields.
pub open spec fn no_entry_no(fields: Seq<(u32, FieldText)>) -> bool {
    forall|i: int| 0 <= i < fields.len() ==> #[trigger] fields[i].0 != tag::MD_ENTRY_NO
}

proof fn lemma_sent_tags(fields: Seq<(u32, FieldText)>)
    ensures
        only_entry_fields(fields) ==> forall|i: int|
            0 <= i < sent_fields(fields).len() ==> is_entry_tag(#[trigger] sent_fields(fields)[i].0),
        no_entry_no(fields) ==> forall|i: int|
            0 <= i < sent_fields(fields).len() ==> #[trigger] sent_fields(fields)[i].0 != tag::MD_ENTRY_NO,
    decreases fields.len(),
{
    if fields.len() > 0 {
        let before = fields.drop_last();
        lemma_sent_tags(before);
        let sent = sent_fields(fields);
        let earlier = sent_fields(before);
        assert(fields.last().0 == fields[fields.len() - 1].0);
        assert(forall|i: int| 0 <= i < earlier.len() ==> #[trigger] sent[i].0 == earlier[i].0);
        assert(only_entry_fields(fields) ==> only_entry_fields(before)) by {
            if only_entry_fields(fields) {
                assert forall|i: int| 0 <= i < before.len() implies is_entry_tag(#[trigger] before[i].0)
                    || is_framing_tag(before[i].0) by {
                    assert(before[i] == fields[i]);
                }
            }
        }
        assert(no_entry_no(fields) ==> no_entry_no(before)) by {
            if no_entry_no(fields) {
                assert forall|i: int| 0 <= i < before.len() implies #[trigger] before[i].0
                    != tag::MD_ENTRY_NO by {
                    assert(before[i] == fields[i]);
                }
            }
        }
    }
}

proof fn lemma_head_len_prefix(a: Seq<(u32, Seq<u8>)>, b: Seq<(u32, Seq<u8>)>)
    requires
        forall|i: int| 0 <= i < a.len() ==> #[trigger] a[i].0 != tag::MD_ENTRY_NO,
    ensures
        head_len(a + b) == a.len() + head_len(b),
    decreases a.len(),
{
    if a.len() == 0 {
        assert(a + b =~= b);
    } else {
        assert((a + b)[0] == a[0]);
        assert((a + b).skip(1) =~= a.skip(1) + b);
        assert forall|i: int| 0 <= i < a.skip(1).len() implies #[trigger] a.skip(1)[i].0
            != tag::MD_ENTRY_NO by {
            assert(a.skip(1)[i] == a[i + 1]);
        }
        lemma_head_len_prefix(a.skip(1), b);
    }
}

/// The repeating group of a trade, with the checksum behind it.
proof fn lemma_trade_of_entries(entries: Seq<(u32, Seq<u8>)>, trailer: (u32, Seq<u8>))
    requires
        all_text(entries),
        forall|i: int| 0 <= i < entries.len() ==> is_entry_tag(#[trigger] entries[i].0),
        trailer.0 == tag::CHECK_SUM,
    ensures
        trade_group(entries) == (Group { fields: as_singles(entries), fault: None }),
        trade_group(entries + seq![trailer]) == trade_group(entries),
    decreases entries.len(),
{
    assert((entries + seq![trailer]).drop_last() =~= entries);
    if entries.len() == 0 {
        assert(as_singles(entries) =~= seq![]);
    } else {
        let before = entries.drop_last();
        assert forall|i: int| 0 <= i < before.len() implies valid_utf8(#[trigger] before[i].1) by {
            assert(before[i] == entries[i]);
        }
        assert forall|i: int| 0 <= i < before.len() implies is_entry_tag(#[trigger] before[i].0) by {
            assert(before[i] == entries[i]);
        }
        lemma_trade_of_entries(before, trailer);
        assert(valid_utf8(entries[entries.len() - 1].1));
        assert(is_entry_tag(entries[entries.len() - 1].0));
        assert(as_singles(entries) =~= as_singles(before).push(
            (entries.last().0, FieldText::Single(decode_utf8(entries.last().1))),
        ));
    }
}

/// The repeating group of a quote, with the checksum behind it.
proof fn lemma_quote_of_entries(entries: Seq<(u32, Seq<u8>)>, trailer: (u32, Seq<u8>))
    requires
        all_text(entries),
        forall|i: int| 0 <= i < entries.len() ==> is_entry_tag(#[trigger] entries[i].0),
        trailer.0 == tag::CHECK_SUM,
    ensures
        quote_group(entries).group.fault is None,
        quote_group(entries + seq![trailer]) == quote_group(entries),
    decreases entries.len(),
{
    assert((entries + seq![trailer]).drop_last() =~= entries);
    if entries.len() > 0 {
        let before = entries.drop_last();
        assert forall|i: int| 0 <= i < before.len() implies valid_utf8(#[trigger] before[i].1) by {
            assert(before[i] == entries[i]);
        }
        assert forall|i: int| 0 <= i < before.len() implies is_entry_tag(#[trigger] before[i].0) by {
            assert(before[i] == entries[i]);
        }
        lemma_quote_of_entries(before, trailer);
        assert(valid_utf8(entries[entries.len() - 1].1));
        assert(is_entry_tag(entries[entries.len() - 1].0));
    }
}

/// A market data message: a header, MDEntryNo, and the entries of its repeating
/// group.
pub open spec fn market_data(
    header: Seq<(u32, FieldText)>,
    entry_no: Seq<char>,
    entries: Seq<(u32, FieldText)>,
) -> Seq<(u32, FieldText)> {
    header.push((tag::MD_ENTRY_NO, FieldText::Single(entry_no))) + entries
}

proof fn lemma_body_fields_concat(a: Seq<(u32, FieldText)>, b: Seq<(u32, FieldText)>)
    ensures
        body_fields(a + b) == body_fields(a) + body_fields(b),
{
    Seq::filter_distributes_over_add(a, b, |f: (u32, FieldText)| !is_framing_tag(f.0));
}

/// How the wire fields of a market data message fall into its header and the
/// rest.
proof fn lemma_market_data_split(
    header: Seq<(u32, FieldText)>,
    entry_no: Seq<char>,
    entries: Seq<(u32, FieldText)>,
)
    requires
        no_entry_no(header),
    ensures
        ({
            let wire = wire_fields(market_data(header, entry_no, entries));
            let h = head_len(wire) as int;
            &&& h <= wire.len()
            &&& wire.take(h) == wire.take(2) + sent_fields(header) + seq![(tag::MD_ENTRY_NO, encode_utf8(entry_no))]
            &&& wire.skip(h) == sent_fields(entries) + seq![wire.last()]
            &&& sent_fields(market_data(header, entry_no, entries)) == sent_fields(header) + seq![
                (tag::MD_ENTRY_NO, encode_utf8(entry_no)),
            ] + sent_fields(entries)
        }),
{
    let no_field = (tag::MD_ENTRY_NO, FieldText::Single(entry_no));
    let no_sent = (tag::MD_ENTRY_NO, encode_utf8(entry_no));
    let fields = market_data(header, entry_no, entries);
    let wire = wire_fields(fields);
    lemma_sent_concat(header.push(no_field), entries);
    assert(header.push(no_field).drop_last() =~= header);
    assert(sent_fields(header.push(no_field)) == sent_fields(header).push(no_sent));
    let front = wire.take(2) + sent_fields(header);
    let back = seq![no_sent] + sent_fields(entries) + seq![wire.last()];
    assert(wire =~= front + back);
    lemma_sent_tags(header);
    assert forall|i: int| 0 <= i < front.len() implies #[trigger] front[i].0 != tag::MD_ENTRY_NO by {
        if i >= 2 {
            assert(front[i] == sent_fields(header)[i - 2]);
        }
    }
    lemma_head_len_prefix(front, back);
    assert(head_len(back) == 1);
    let h = head_len(wire) as int;
    assert(wire.take(h) =~= front + seq![no_sent]);
    assert(wire.skip(h) =~= sent_fields(entries) + seq![wire.last()]);
}

proof fn lemma_preamble_singles(fields: Seq<(u32, FieldText)>)
    requires
        writable(fields),
    ensures
        as_singles(wire_fields(fields).take(2)) == preamble_fields(body_bytes(fields).len()),
        all_text(wire_fields(fields).take(2)),
{
    let n = body_bytes(fields).len();
    let pre = wire_fields(fields).take(2);
    lemma_wire_values(fields);
    encode_utf8_decode_utf8(FIX_VERSION@);
    lemma_decimal_encoded(n);
    encode_utf8_decode_utf8(decimal(n));
    assert(as_singles(pre) =~= preamble_fields(n));
    assert forall|i: int| 0 <= i < pre.len() implies valid_utf8(#[trigger] pre[i].1) by {
        assert(pre[i] == wire_fields(fields)[i]);
    }
}

proof fn lemma_singles_concat(a: Seq<(u32, Seq<u8>)>, b: Seq<(u32, Seq<u8>)>)
    ensures
        as_singles(a + b) == as_singles(a) + as_singles(b),
        all_text(a) && all_text(b) ==> all_text(a + b),
{
    assert(as_singles(a + b) =~= as_singles(a) + as_singles(b));
    if all_text(a) && all_text(b) {
        assert forall|i: int| 0 <= i < (a + b).len() implies valid_utf8(#[trigger] (a + b)[i].1) by {
            if i < a.len() {
                assert((a + b)[i] == a[i]);
            } else {
                assert((a + b)[i] == b[i - a.len()]);
            }
        }
    }
}

proof fn lemma_has_pair_concat(a: Seq<(u32, FieldText)>, b: Seq<(u32, FieldText)>)
    requires
        !has_pair(a + b),
    ensures
        !has_pair(a),
        !has_pair(b),
{
    if has_pair(a) {
        let i = choose|i: int| 0 <= i < a.len() && !is_framing_tag(#[trigger] a[i].0) && a[i].1 is Pair;
        assert((a + b)[i] == a[i]);
        assert(!is_framing_tag((a + b)[i].0) && (a + b)[i].1 is Pair);
    }
    if has_pair(b) {
        let i = choose|i: int| 0 <= i < b.len() && !is_framing_tag(#[trigger] b[i].0) && b[i].1 is Pair;
        assert((a + b)[a.len() + i] == b[i]);
        assert(!is_framing_tag((a + b)[a.len() + i].0) && (a + b)[a.len() + i].1 is Pair);
    }
}

proof fn lemma_writable_concat(a: Seq<(u32, FieldText)>, b: Seq<(u32, FieldText)>)
    requires
        writable(a + b),
    ensures
        writable(a),
        writable(b),
{
    assert forall|i: int| 0 <= i < a.len() implies match #[trigger] a[i].1 {
        FieldText::Single(text) => delimiter_free(encode_utf8(text)),
        FieldText::Pair(_, _) => true,
    } by {
        assert((a + b)[i] == a[i]);
    }
    assert forall|i: int| 0 <= i < b.len() implies match #[trigger] b[i].1 {
        FieldText::Single(text) => delimiter_free(encode_utf8(text)),
        FieldText::Pair(_, _) => true,
    } by {
        assert((a + b)[a.len() + i] == b[i]);
    }
}

/// The header of a market data message as it is read back.
proof fn lemma_market_data_header(
    header: Seq<(u32, FieldText)>,
    entry_no: Seq<char>,
    entries: Seq<(u32, FieldText)>,
)
    requires
        no_entry_no(header),
        !has_pair(market_data(header, entry_no, entries)),
        writable(market_data(header, entry_no, entries)),
    ensures
        ({
            let fields = market_data(header, entry_no, entries);
            let wire = wire_fields(fields);
            let head = wire.take(head_len(wire) as int);
            &&& header_group(head).fault is None
            &&& header_group(head).fields == preamble_fields(body_bytes(fields).len()) + body_fields(header).push(
                (tag::MD_ENTRY_NO, FieldText::Single(entry_no)),
            )
            &&& head.len() > 0
            &&& head.last() == (tag::MD_ENTRY_NO, encode_utf8(entry_no))
            &&& all_text(sent_fields(entries))
            &&& !has_pair(entries)
        }),
{
    let fields = market_data(header, entry_no, entries);
    let no_field = (tag::MD_ENTRY_NO, FieldText::Single(entry_no));
    let no_sent = (tag::MD_ENTRY_NO, encode_utf8(entry_no));
    let wire = wire_fields(fields);
    let head = wire.take(head_len(wire) as int);
    lemma_market_data_split(header, entry_no, entries);
    lemma_has_pair_concat(header.push(no_field), entries);
    assert(header.push(no_field) =~= header + seq![no_field]);
    lemma_has_pair_concat(header, seq![no_field]);
    lemma_writable_concat(header.push(no_field), entries);
    lemma_writable_concat(header, seq![no_field]);
    lemma_sent_values(header);
    lemma_sent_values(entries);
    lemma_sent_singles(header);
    lemma_preamble_singles(fields);
    encode_utf8_valid_utf8(entry_no);
    encode_utf8_decode_utf8(entry_no);
    lemma_singles_concat(wire.take(2), sent_fields(header));
    lemma_singles_concat(wire.take(2) + sent_fields(header), seq![no_sent]);
    assert(as_singles(seq![no_sent]) =~= seq![no_field]);
    lemma_header_of_text(head);
    assert(as_singles(head) =~= preamble_fields(body_bytes(fields).len()) + body_fields(header).push(no_field));
}

proof fn lemma_value_from_concat(
    a: Seq<(u32, FieldText)>,
    b: Seq<(u32, FieldText)>,
    t: u32,
    i: int,
)
    requires
        0 <= i <= a.len(),
    ensures
        value_from(a + b, t, i) == (if value_from(a, t, i) is Some {
            value_from(a, t, i)
        } else {
            value_of(b, t)
        }),
    decreases a.len() - i,
{
    if i < a.len() {
        assert((a + b)[i] == a[i]);
        lemma_value_from_concat(a, b, t, i + 1);
    } else {
        lemma_value_from_shift(a, b, t, 0);
    }
}

proof fn lemma_value_from_shift(
    a: Seq<(u32, FieldText)>,
    b: Seq<(u32, FieldText)>,
    t: u32,
    j: int,
)
    requires
        0 <= j <= b.len(),
    ensures
        value_from(a + b, t, a.len() + j) == value_from(b, t, j),
    decreases b.len() - j,
{
    if j < b.len() {
        assert((a + b)[a.len() + j] == b[j]);
        lemma_value_from_shift(a, b, t, j + 1);
    }
}

/// A value is looked up in the first of two lists, then in the second.
pub(crate) proof fn lemma_value_of_concat(a: Seq<(u32, FieldText)>, b: Seq<(u32, FieldText)>, t: u32)
    ensures
        value_of(a + b, t) == (if value_of(a, t) is Some {
            value_of(a, t)
        } else {
            value_of(b, t)
        }),
{
    lemma_value_from_concat(a, b, t, 0);
}

proof fn lemma_value_of_body_fields(fields: Seq<(u32, FieldText)>, t: u32)
    requires
        !is_framing_tag(t),
    ensures
        value_of(body_fields(fields), t) == value_of(fields, t),
    decreases fields.len(),
{
    reveal_with_fuel(Seq::filter, 2);
    reveal_with_fuel(value_from, 2);
    if fields.len() > 0 {
        let before = fields.drop_last();
        let last = seq![fields.last()];
        lemma_value_of_body_fields(before, t);
        assert(fields =~= before + last);
        lemma_value_of_concat(before, last, t);
        assert(body_fields(fields) =~= body_fields(before) + (if is_framing_tag(fields.last().0) {
            seq![]
        } else {
            last
        }));
        if !is_framing_tag(fields.last().0) {
            lemma_value_of_concat(body_fields(before), last, t);
        }
    }
}

proof fn lemma_value_behind_preamble(body_len: nat, fields: Seq<(u32, FieldText)>, t: u32)
    requires
        !is_framing_tag(t),
    ensures
        value_of(preamble_fields(body_len) + body_fields(fields), t) == value_of(fields, t),
{
    reveal_with_fuel(value_from, 3);
    lemma_value_of_body_fields(fields, t);
    lemma_value_of_concat(preamble_fields(body_len), body_fields(fields), t);
}

/// What a message without a repeating group has behind its fields when it is
/// read back: the checksum, and empty prices and sizes.
pub open spec fn session_trailer(fields: Seq<(u32, FieldText)>) -> Seq<(u32, FieldText)> {
    let body = body_bytes(fields);
    seq![
        (
            tag::CHECK_SUM,
            FieldText::Single(decode_utf8(three_digits(byte_sum(preamble_bytes(body.len()) + body) % 256))),
        ),
        (tag::MD_ENTRY_PX, FieldText::Pair(seq![], seq![])),
        (tag::MD_ENTRY_SIZE, FieldText::Pair(seq![], seq![])),
    ]
}

/// A message without a repeating group that the codec wrote is read back
/// successfully, and every value of its body is found again under its tag.
pub proof fn written_session_message_is_read_back(fields: Seq<(u32, FieldText)>)
    requires
        no_entry_no(fields),
        !has_pair(fields),
        writable(fields),
    ensures
        ({
            let read = preamble_fields(body_bytes(fields).len()) + body_fields(fields) + session_trailer(fields);
            &&& decoded(wire_bytes(fields)) == Ok::<Seq<(u32, FieldText)>, ParsingFault>(read)
            &&& forall|t: u32|
                !is_framing_tag(t) && value_of(fields, t) is Some ==> #[trigger] value_of(read, t) == value_of(fields, t)
            &&& forall|t: u32|
                !is_framing_tag(t) && t != tag::MD_ENTRY_PX && t != tag::MD_ENTRY_SIZE ==> #[trigger] value_of(read, t)
                    == value_of(fields, t)
        }),
{
    let wire = wire_fields(fields);
    let pre = preamble_fields(body_bytes(fields).len());
    let read = pre + body_fields(fields) + session_trailer(fields);
    decoder_sees_what_was_written(fields);
    lemma_sent_tags(fields);
    assert forall|i: int| 0 <= i < wire.len() implies #[trigger] wire[i].0 != tag::MD_ENTRY_NO by {
        if 2 <= i < wire.len() - 1 {
            assert(wire[i] == sent_fields(fields)[i - 2]);
        }
    }
    lemma_head_len_prefix(wire, seq![]);
    assert(wire + seq![] =~= wire);
    assert(wire.take(wire.len() as int) =~= wire);
    assert(wire.skip(wire.len() as int) =~= seq![]);
    lemma_wire_values(fields);
    lemma_header_of_text(wire);
    lemma_preamble_singles(fields);
    lemma_sent_singles(fields);
    let sum = seq![wire.last()];
    assert(wire =~= wire.take(2) + sent_fields(fields) + sum);
    lemma_singles_concat(wire.take(2), sent_fields(fields));
    lemma_singles_concat(wire.take(2) + sent_fields(fields), sum);
    assert(as_singles(wire) + quote_fields(quote_group(seq![])) =~= read);
    assert(wire.last().0 == tag::CHECK_SUM);
    assert forall|t: u32|
        !is_framing_tag(t) && (value_of(fields, t) is Some || (t != tag::MD_ENTRY_PX && t
            != tag::MD_ENTRY_SIZE)) implies #[trigger] value_of(read, t) == value_of(fields, t) by {
        reveal_with_fuel(value_from, 4);
        lemma_value_behind_preamble(body_bytes(fields).len(), fields, t);
        lemma_value_of_concat(pre + body_fields(fields), session_trailer(fields), t);
    }
}

/// A trade that the codec wrote, checksum and all, is read back successfully: it
/// gives BeginString, BodyLength and the fields that were written.
pub proof fn written_trade_is_read_back(
    header: Seq<(u32, FieldText)>,
    entry_no: Seq<char>,
    entries: Seq<(u32, FieldText)>,
)
    requires
        no_entry_no(header),
        announces_trade(encode_utf8(entry_no)),
        only_entry_fields(entries),
        !has_pair(market_data(header, entry_no, entries)),
        writable(market_data(header, entry_no, entries)),
    ensures
        ({
            let fields = market_data(header, entry_no, entries);
            let read = preamble_fields(body_bytes(fields).len()) + body_fields(fields);
            &&& decoded(wire_bytes(fields)) == Ok::<Seq<(u32, FieldText)>, ParsingFault>(read)
            &&& forall|t: u32| !is_framing_tag(t) ==> #[trigger] value_of(read, t) == value_of(fields, t)
        }),
{
    let fields = market_data(header, entry_no, entries);
    let no_field = (tag::MD_ENTRY_NO, FieldText::Single(entry_no));
    let wire = wire_fields(fields);
    decoder_sees_what_was_written(fields);
    lemma_market_data_split(header, entry_no, entries);
    lemma_market_data_header(header, entry_no, entries);
    lemma_sent_tags(entries);
    lemma_trade_of_entries(sent_fields(entries), wire.last());
    lemma_sent_singles(entries);
    assert(header.push(no_field) =~= header + seq![no_field]);
    lemma_body_fields_concat(header + seq![no_field], entries);
    lemma_body_fields_concat(header, seq![no_field]);
    assert(body_fields(seq![no_field]) =~= seq![no_field]) by {
        reveal_with_fuel(Seq::filter, 2);
        assert(seq![no_field].drop_last() =~= seq![]);
    }
    let pre = preamble_fields(body_bytes(fields).len());
    assert(pre + body_fields(header).push(no_field) + body_fields(entries) =~= pre + body_fields(fields));
    assert forall|t: u32| !is_framing_tag(t) implies #[trigger] value_of(pre + body_fields(fields), t)
        == value_of(fields, t) by {
        lemma_value_behind_preamble(body_bytes(fields).len(), fields, t);
    }
}

/// A quote that the codec wrote is read back successfully: it gives
/// BeginString, BodyLength, the header and MDEntryNo that were written, and what
/// its entries make of a quote.
pub proof fn written_quote_is_read_back(
    header: Seq<(u32, FieldText)>,
    entry_no: Seq<char>,
    entries: Seq<(u32, FieldText)>,
)
    requires
        no_entry_no(header),
        !announces_trade(encode_utf8(entry_no)),
        only_entry_fields(entries),
        !has_pair(market_data(header, entry_no, entries)),
        writable(market_data(header, entry_no, entries)),
    ensures
        ({
            let fields = market_data(header, entry_no, entries);
            decoded(wire_bytes(fields)) == Ok::<Seq<(u32, FieldText)>, ParsingFault>(
                preamble_fields(body_bytes(fields).len()) + body_fields(header).push(
                    (tag::MD_ENTRY_NO, FieldText::Single(entry_no)),
                ) + quote_fields(quote_group(sent_fields(entries))),
            )
        }),
{
    let fields = market_data(header, entry_no, entries);
    let wire = wire_fields(fields);
    decoder_sees_what_was_written(fields);
    lemma_market_data_split(header, entry_no, entries);
    lemma_market_data_header(header, entry_no, entries);
    lemma_sent_tags(entries);
    lemma_quote_of_entries(sent_fields(entries), wire.last());
}

/// The value of the last field with this tag, or the empty text.
pub open spec fn last_text(fields: Seq<(u32, Seq<u8>)>, tag: u32) -> Seq<char>
    decreases fields.len(),
{
    if fields.len() == 0 {
        seq![]
    } else if fields.last().0 == tag {
        decode_utf8(fields.last().1)
    } else {
        last_text(fields.drop_last(), tag)
    }
}

/// Whether the fields are those of one entry: text under the tags of an entry,
/// without MDEntryNo.
pub open spec fn one_entry(fields: Seq<(u32, Seq<u8>)>) -> bool {
    forall|i: int|
        0 <= i < fields.len() ==> is_entry_tag((#[trigger] fields[i]).0) && fields[i].0 != tag::MD_ENTRY_NO
            && valid_utf8(fields[i].1)
}

proof fn lemma_first_side(first: Seq<(u32, Seq<u8>)>)
    requires
        one_entry(first),
    ensures
        quote_group(first).group.fault is None,
        !quote_group(first).second,
        quote_group(first).px == (last_text(first, tag::MD_ENTRY_PX), Seq::<char>::empty()),
        quote_group(first).size == (last_text(first, tag::MD_ENTRY_SIZE), Seq::<char>::empty()),
    decreases first.len(),
{
    if first.len() > 0 {
        let before = first.drop_last();
        assert forall|i: int| 0 <= i < before.len() implies is_entry_tag((#[trigger] before[i]).0) && before[i].0
            != tag::MD_ENTRY_NO && valid_utf8(before[i].1) by {
            assert(before[i] == first[i]);
        }
        lemma_first_side(before);
        assert(is_entry_tag(first[first.len() - 1].0));
    }
}

proof fn lemma_second_side(seen: Seq<(u32, Seq<u8>)>, second: Seq<(u32, Seq<u8>)>)
    requires
        quote_group(seen).group.fault is None,
        quote_group(seen).second,
        quote_group(seen).px.1 == Seq::<char>::empty(),
        quote_group(seen).size.1 == Seq::<char>::empty(),
        one_entry(second),
    ensures
        quote_group(seen + second).group.fault is None,
        quote_group(seen + second).second,
        quote_group(seen + second).px == (quote_group(seen).px.0, last_text(second, tag::MD_ENTRY_PX)),
        quote_group(seen + second).size == (quote_group(seen).size.0, last_text(second, tag::MD_ENTRY_SIZE)),
    decreases second.len(),
{
    if second.len() == 0 {
        assert(seen + second =~= seen);
    } else {
        let before = second.drop_last();
        assert forall|i: int| 0 <= i < before.len() implies is_entry_tag((#[trigger] before[i]).0) && before[i].0
            != tag::MD_ENTRY_NO && valid_utf8(before[i].1) by {
            assert(before[i] == second[i]);
        }
        lemma_second_side(seen, before);
        assert((seen + second).drop_last() =~= seen + before);
        assert(is_entry_tag(second[second.len() - 1].0));
    }
}

/// The two sides of a quote: what stands before MDEntryNo occurs again is the
/// bid, and what stands behind it the offer. Of several prices or sizes of one
/// side the last counts.
pub proof fn quote_sides_are_told_apart_by_entry_no(
    first: Seq<(u32, Seq<u8>)>,
    entry_no: Seq<u8>,
    second: Seq<(u32, Seq<u8>)>,
)
    requires
        one_entry(first),
        one_entry(second),
        valid_utf8(entry_no),
    ensures
        ({
            let quote = quote_group(first.push((tag::MD_ENTRY_NO, entry_no)) + second);
            &&& quote.group.fault is None
            &&& quote.px == (last_text(first, tag::MD_ENTRY_PX), last_text(second, tag::MD_ENTRY_PX))
            &&& quote.size == (last_text(first, tag::MD_ENTRY_SIZE), last_text(second, tag::MD_ENTRY_SIZE))
        }),
{
    let seen = first.push((tag::MD_ENTRY_NO, entry_no));
    lemma_first_side(first);
    assert(seen.drop_last() =~= first);
    lemma_second_side(seen, second);
}

/// The text of the last single field with this tag, or the empty text.
pub open spec fn last_single(fields: Seq<(u32, FieldText)>, tag: u32) -> Seq<char>
    decreases fields.len(),
{
    if fields.len() == 0 {
        seq![]
    } else {
        match fields.last() {
            (t, FieldText::Single(text)) => if t == tag {
                text
            } else {
                last_single(fields.drop_last(), tag)
            },
            _ => last_single(fields.drop_last(), tag),
        }
    }
}

proof fn lemma_last_text_of_sent(fields: Seq<(u32, FieldText)>, t: u32)
    requires
        !is_framing_tag(t),
    ensures
        last_text(sent_fields(fields), t) == last_single(fields, t),
    decreases fields.len(),
{
    if fields.len() > 0 {
        let before = fields.drop_last();
        lemma_last_text_of_sent(before, t);
        match fields.last() {
            (u, FieldText::Single(text)) => {
                encode_utf8_decode_utf8(text);
                if !is_framing_tag(u) {
                    assert(sent_fields(fields).drop_last() =~= sent_fields(before));
                }
            },
            _ => {},
        }
    }
}

/// The single fields of a quote's repeating group are its entry fields, but for
/// the prices and the sizes.
proof fn lemma_quote_values(entries: Seq<(u32, Seq<u8>)>, t: u32)
    requires
        all_text(entries),
        forall|i: int| 0 <= i < entries.len() ==> is_entry_tag(#[trigger] entries[i].0),
    ensures
        quote_group(entries).group.fault is None,
        value_of(quote_group(entries).group.fields, t) == (if t == tag::MD_ENTRY_PX || t == tag::MD_ENTRY_SIZE {
            None
        } else {
            value_of(as_singles(entries), t)
        }),
    decreases entries.len(),
{
    reveal_with_fuel(value_from, 2);
    if entries.len() > 0 {
        let before = entries.drop_last();
        let last = entries.last();
        let single = (last.0, FieldText::Single(decode_utf8(last.1)));
        assert forall|i: int| 0 <= i < before.len() implies valid_utf8(#[trigger] before[i].1) by {
            assert(before[i] == entries[i]);
        }
        assert forall|i: int| 0 <= i < before.len() implies is_entry_tag(#[trigger] before[i].0) by {
            assert(before[i] == entries[i]);
        }
        lemma_quote_values(before, t);
        assert(valid_utf8(entries[entries.len() - 1].1));
        assert(is_entry_tag(entries[entries.len() - 1].0));
        assert(as_singles(entries) =~= as_singles(before) + seq![single]);
        lemma_value_of_concat(as_singles(before), seq![single], t);
        let earlier = quote_group(before).group.fields;
        if last.0 != tag::MD_ENTRY_PX && last.0 != tag::MD_ENTRY_SIZE {
            assert(quote_group(entries).group.fields =~= earlier + seq![single]);
            lemma_value_of_concat(earlier, seq![single], t);
        }
    }
}

/// A quote as it stands on the wire: a header, MDEntryNo, the entry of the bid,
/// MDEntryNo again, and the entry of the offer.
pub open spec fn quote_message(
    header: Seq<(u32, FieldText)>,
    entry_no: Seq<char>,
    bid: Seq<(u32, FieldText)>,
    again: Seq<char>,
    offer: Seq<(u32, FieldText)>,
) -> Seq<(u32, FieldText)> {
    market_data(header, entry_no, bid.push((tag::MD_ENTRY_NO, FieldText::Single(again))) + offer)
}

proof fn lemma_entry_sent(fields: Seq<(u32, FieldText)>)
    requires
        only_entry_fields(fields),
        no_entry_no(fields),
        writable(fields),
    ensures
        one_entry(sent_fields(fields)),
{
    lemma_sent_tags(fields);
    lemma_sent_values(fields);
    let sent = sent_fields(fields);
    assert forall|i: int| 0 <= i < sent.len() implies is_entry_tag((#[trigger] sent[i]).0) && sent[i].0
        != tag::MD_ENTRY_NO && valid_utf8(sent[i].1) by {
        assert(is_entry_tag(sent[i].0));
        assert(sent[i].0 != tag::MD_ENTRY_NO);
        assert(valid_utf8(sent[i].1));
    }
}

/// A quote that the codec wrote is read back with its two sides: the prices and
/// the sizes of the bid and of the offer as pairs, and every other value of its
/// body under its tag.
pub proof fn written_quote_keeps_its_sides(
    header: Seq<(u32, FieldText)>,
    entry_no: Seq<char>,
    bid: Seq<(u32, FieldText)>,
    again: Seq<char>,
    offer: Seq<(u32, FieldText)>,
)
    requires
        no_entry_no(header),
        value_of(header, tag::MD_ENTRY_PX) is None,
        value_of(header, tag::MD_ENTRY_SIZE) is None,
        !announces_trade(encode_utf8(entry_no)),
        no_entry_no(bid),
        no_entry_no(offer),
        only_entry_fields(bid),
        only_entry_fields(offer),
        !has_pair(quote_message(header, entry_no, bid, again, offer)),
        writable(quote_message(header, entry_no, bid, again, offer)),
    ensures
        ({
            let fields = quote_message(header, entry_no, bid, again, offer);
            &&& decoded(wire_bytes(fields)) matches Ok(read)
            &&& pair_of(read, tag::MD_ENTRY_PX) == Some(
                (last_single(bid, tag::MD_ENTRY_PX), last_single(offer, tag::MD_ENTRY_PX)),
            )
            &&& pair_of(read, tag::MD_ENTRY_SIZE) == Some(
                (last_single(bid, tag::MD_ENTRY_SIZE), last_single(offer, tag::MD_ENTRY_SIZE)),
            )
            &&& forall|t: u32|
                !is_framing_tag(t) && t != tag::MD_ENTRY_PX && t != tag::MD_ENTRY_SIZE ==> #[trigger] value_of(read, t)
                    == value_of(fields, t)
        }),
{
    let no_field = (tag::MD_ENTRY_NO, FieldText::Single(entry_no));
    let again_field = (tag::MD_ENTRY_NO, FieldText::Single(again));
    let entries = bid.push(again_field) + offer;
    let fields = quote_message(header, entry_no, bid, again, offer);
    let front = header.push(no_field);
    let sent = sent_fields(entries);
    assert(front =~= header + seq![no_field]);
    assert(bid.push(again_field) =~= bid + seq![again_field]);
    lemma_has_pair_concat(front, entries);
    lemma_writable_concat(front, entries);
    lemma_writable_concat(bid + seq![again_field], offer);
    lemma_writable_concat(bid, seq![again_field]);
    assert forall|i: int| 0 <= i < entries.len() implies is_entry_tag(#[trigger] entries[i].0) || is_framing_tag(
        entries[i].0,
    ) by {
        if i < bid.len() {
            assert(entries[i] == bid[i]);
        } else if i > bid.len() {
            assert(entries[i] == offer[i - bid.len() - 1]);
        }
    }
    written_quote_is_read_back(header, entry_no, entries);
    lemma_sent_concat(bid.push(again_field), offer);
    assert(bid.push(again_field).drop_last() =~= bid);
    lemma_entry_sent(bid);
    lemma_entry_sent(offer);
    encode_utf8_valid_utf8(again);
    quote_sides_are_told_apart_by_entry_no(sent_fields(bid), encode_utf8(again), sent_fields(offer));
    lemma_last_text_of_sent(bid, tag::MD_ENTRY_PX);
    lemma_last_text_of_sent(bid, tag::MD_ENTRY_SIZE);
    lemma_last_text_of_sent(offer, tag::MD_ENTRY_PX);
    lemma_last_text_of_sent(offer, tag::MD_ENTRY_SIZE);
    lemma_sent_tags(entries);
    lemma_sent_values(entries);
    lemma_sent_singles(entries);
    let pre = preamble_fields(body_bytes(fields).len());
    let quote = quote_group(sent);
    let sides = seq![
        (tag::MD_ENTRY_PX, FieldText::Pair(quote.px.0, quote.px.1)),
        (tag::MD_ENTRY_SIZE, FieldText::Pair(quote.size.0, quote.size.1)),
    ];
    let head = pre + body_fields(header).push(no_field);
    let read = head + quote_fields(quote);
    assert(quote_fields(quote) =~= quote.group.fields + sides);
    lemma_body_fields_concat(header, seq![no_field]);
    assert(body_fields(seq![no_field]) =~= seq![no_field]) by {
        reveal_with_fuel(Seq::filter, 2);
        assert(seq![no_field].drop_last() =~= seq![]);
    }
    assert(body_fields(front) =~= body_fields(header).push(no_field));
    assert forall|t: u32| !is_framing_tag(t) implies #[trigger] value_of(read, t) == (if t == tag::MD_ENTRY_PX {
        Some(sides[0].1)
    } else if t == tag::MD_ENTRY_SIZE {
        Some(sides[1].1)
    } else {
        value_of(fields, t)
    }) by {
        reveal_with_fuel(value_from, 3);
        lemma_value_behind_preamble(body_bytes(fields).len(), front, t);
        lemma_value_of_concat(header, seq![no_field], t);
        lemma_value_of_concat(head, quote_fields(quote), t);
        lemma_value_of_concat(quote.group.fields, sides, t);
        lemma_quote_values(sent, t);
        lemma_value_of_body_fields(entries, t);
        lemma_value_of_concat(front, entries, t);
    }
    assert(value_of(read, tag::MD_ENTRY_PX) == Some(sides[0].1));
    assert(value_of(read, tag::MD_ENTRY_SIZE) == Some(sides[1].1));
}

} // verus!
