//! Messages on the wire.
use vstd::prelude::*;
use vstd::utf8::*;

use crate::errors::{LoadFault, ParsingFault};
use crate::fix::codec::{
    announces_trade, assembled, body_bytes, byte_sum, decoded, fields_from, has_pair, head_from, header_group,
    is_entry_tag, is_framing_tag, preamble_bytes, quote_fields, quote_group, three_digits, trade_group, wire_bytes,
    QuoteGroup,
};
use crate::fix::parser::{
    delimiter_free, field_at, field_bytes, lemma_digits_delimiter_free, parser_stays_in_the_buffer,
    scan_tag, value_end, written_field_is_read_back,
};
use crate::fix::raw_msg::FieldText;
use crate::fix::roundtrip::{
    all_delimiter_free, fields_bytes, head_len, lemma_fields_read_back, lemma_head_read_back,
};
use crate::laws::numbers::{digits_are_zero_to_nine, other_bytes_are_no_number, written_number_reads_back};
use crate::network::framing::frame;
use crate::text::{
    all_digits, decimal_bytes, digits_value, is_digit, lemma_decimal_bytes,
    lemma_digits_value_prefix, usize_value,
};

verus! {

/// Whether `data` spells a tag from `start` on, whose `=` is at `eq`: nothing but
/// digits in front of it, which make a number of 32 bits.
pub open spec fn spells_tag(data: Seq<u8>, start: int, eq: int) -> bool {
    &&& start <= eq < data.len()
    &&& data[eq] == 0x3d
    &&& forall|i: int| start <= i < eq ==> 0x30 <= #[trigger] data[i] <= 0x39
    &&& digits_value(data.subrange(start, eq)) <= 0xffff_ffff
}

proof fn lemma_scan_tag(data: Seq<u8>, start: int, pos: int)
    requires
        0 <= start <= pos <= data.len(),
        forall|i: int| start <= i < pos ==> 0x30 <= #[trigger] data[i] <= 0x39,
        digits_value(data.subrange(start, pos)) <= 0xffff_ffff,
    ensures
        ({
            let (stop, tag) = scan_tag(data, pos, digits_value(data.subrange(start, pos)));
            &&& pos <= stop <= data.len()
            &&& forall|i: int| start <= i < stop ==> 0x30 <= #[trigger] data[i] <= 0x39
            &&& digits_value(data.subrange(start, stop)) <= 0xffff_ffff
            &&& match tag {
                Some(t) => stop < data.len() && data[stop] == 0x3d && t == digits_value(data.subrange(start, stop)),
                None => stop < data.len() ==> data[stop] != 0x3d && (data[stop] < 0x30 || data[stop] > 0x39
                    || digits_value(data.subrange(start, stop + 1)) > 0xffff_ffff),
            }
        }),
    decreases data.len() - pos,
{
    if pos < data.len() {
        let longer = data.subrange(start, pos + 1);
        assert(longer.drop_last() =~= data.subrange(start, pos));
        assert(longer.last() == data[pos]);
        if data[pos] != 0x3d && 0x30 <= data[pos] <= 0x39 && digits_value(longer) <= 0xffff_ffff {
            assert(is_digit(data[pos]));
            lemma_scan_tag(data, start, pos + 1);
        }
    }
}

proof fn lemma_value_end(data: Seq<u8>, pos: int)
    requires
        0 <= pos <= data.len(),
    ensures
        pos <= value_end(data, pos) <= data.len(),
        forall|i: int| pos <= i < value_end(data, pos) ==> #[trigger] data[i] != 0x01,
        value_end(data, pos) < data.len() ==> data[value_end(data, pos)] == 0x01,
    decreases data.len() - pos,
{
    if pos < data.len() && data[pos] != 0x01 {
        lemma_value_end(data, pos + 1);
    }
}

/// A field is read exactly where one stands: digits, an equals sign, and all
/// bytes up to the next delimiter or the end; what follows is read from behind
/// the delimiter. Where no field stands, reading stops at the first byte that
/// cannot belong to its tag.
pub proof fn field_is_read_exactly_where_one_stands(data: Seq<u8>, pos: int)
    requires
        0 <= pos <= data.len(),
    ensures
        match field_at(data, pos) {
            (next, Some((tag, value))) => exists|eq: int|
                #![trigger spells_tag(data, pos, eq)]
                {
                    let end = eq + 1 + value.len();
                    &&& spells_tag(data, pos, eq)
                    &&& tag == digits_value(data.subrange(pos, eq))
                    &&& end <= data.len()
                    &&& value == data.subrange(eq + 1, end)
                    &&& forall|i: int| 0 <= i < value.len() ==> #[trigger] value[i] != 0x01
                    &&& end < data.len() ==> data[end] == 0x01 && next == end + 1
                    &&& end == data.len() ==> next == end
                },
            (next, None) => {
                &&& forall|eq: int| !#[trigger] spells_tag(data, pos, eq)
                &&& pos <= next <= data.len()
                &&& forall|i: int| pos <= i < next ==> 0x30 <= #[trigger] data[i] <= 0x39
                &&& next < data.len() ==> data[next] < 0x30 || data[next] > 0x39 || digits_value(
                    data.subrange(pos, next + 1),
                ) > 0xffff_ffff
            },
        },
{
    assert(data.subrange(pos, pos) =~= seq![]);
    assert(digits_value(seq![]) == 0);
    lemma_scan_tag(data, pos, pos);
    let (stop, tag) = scan_tag(data, pos, 0);
    match tag {
        Some(t) => {
            lemma_value_end(data, stop + 1);
            assert(spells_tag(data, pos, stop));
            let end = value_end(data, stop + 1);
            let value = data.subrange(stop + 1, end);
            assert(stop + 1 + value.len() == end);
            assert forall|i: int| 0 <= i < value.len() implies #[trigger] value[i] != 0x01 by {
                assert(value[i] == data[stop + 1 + i]);
            }
        },
        None => {
            assert forall|eq: int| !#[trigger] spells_tag(data, pos, eq) by {
                if spells_tag(data, pos, eq) {
                    if eq < stop {
                        assert(0x30 <= data[eq] <= 0x39);
                    } else if eq > stop {
                        assert(0x30 <= data[stop] <= 0x39);
                        let all = data.subrange(pos, eq);
                        assert forall|i: int| 0 <= i < all.len() implies #[trigger] all[i] >= 48 by {
                            assert(all[i] == data[pos + i]);
                        }
                        lemma_digits_value_prefix(all, stop + 1 - pos);
                        assert(all.take(stop + 1 - pos) =~= data.subrange(pos, stop + 1));
                    }
                }
            }
        },
    }
}

/// A field on the wire is its tag in base ten, an equals sign, its value, and the
/// delimiter.
pub proof fn field_is_tag_equals_value_delimiter(tag: u32, value: Seq<u8>)
    ensures
        field_bytes(tag, value) == decimal_bytes(tag as nat) + seq![0x3du8] + value + seq![0x01u8],
        delimiter_free(value) <==> forall|i: int| 0 <= i < value.len() ==> #[trigger] value[i] != 0x01,
{
    if delimiter_free(value) {
        assert forall|i: int| 0 <= i < value.len() implies #[trigger] value[i] != 0x01 by {
            if value[i] == 0x01 {
                assert(value.contains(0x01));
            }
        }
    }
}

/// Fields that are written one after another are read one after another, each
/// with its tag and its value, and none is left out.
pub proof fn fields_are_read_one_after_another(
    first: Seq<(u32, Seq<u8>)>,
    field: (u32, Seq<u8>),
    all: Seq<(u32, Seq<u8>)>,
)
    requires
        all_delimiter_free(all),
    ensures
        fields_bytes(first.push(field)) == fields_bytes(first) + field_bytes(field.0, field.1),
        fields_bytes(seq![]) == Seq::<u8>::empty(),
        fields_from(fields_bytes(all), 0) == all,
{
    assert(first.push(field).drop_last() =~= first);
    assert(fields_bytes(all).skip(0) =~= fields_bytes(all));
    lemma_fields_read_back(fields_bytes(all), 0, all);
}

/// From any place in any buffer, fields are read up to the first place where none
/// stands; a header is read so too, but ends with its first MDEntryNo, and says
/// where reading goes on.
pub proof fn fields_are_read_up_to_the_first_gap(data: Seq<u8>, pos: int)
    requires
        0 <= pos <= data.len(),
    ensures
        match field_at(data, pos) {
            (next, Some((tag, value))) => {
                &&& fields_from(data, pos) == seq![(tag, value)] + fields_from(data, next)
                &&& tag == 268 ==> head_from(data, pos) == (seq![(tag, value)], next)
                &&& tag != 268 ==> head_from(data, pos).0 == seq![(tag, value)] + head_from(data, next).0
                &&& tag != 268 ==> head_from(data, pos).1 == head_from(data, next).1
            },
            (next, None) => {
                &&& fields_from(data, pos).len() == 0
                &&& head_from(data, pos).0.len() == 0
                &&& head_from(data, pos).1 == next
            },
        },
        decoded(data) == assembled(head_from(data, 0).0, fields_from(data, head_from(data, 0).1)),
{
    parser_stays_in_the_buffer(data, pos);
}

/// The header of a message goes up to and with its first MDEntryNo, and what
/// follows it is the rest.
pub proof fn header_ends_with_the_first_entry_number(
    header: Seq<(u32, Seq<u8>)>,
    value: Seq<u8>,
    rest: Seq<(u32, Seq<u8>)>,
)
    requires
        all_delimiter_free(header.push((268u32, value)) + rest),
        forall|i: int| 0 <= i < header.len() ==> (#[trigger] header[i]).0 != 268,
    ensures
        ({
            let data = fields_bytes(header.push((268u32, value)) + rest);
            &&& head_from(data, 0).0 == header.push((268u32, value))
            &&& fields_from(data, head_from(data, 0).1) == rest
        }),
{
    let all = header.push((268u32, value)) + rest;
    let data = fields_bytes(all);
    assert(data.skip(0) =~= data);
    lemma_head_read_back(data, 0, all);
    lemma_head_len(header, value, rest);
    let n = header.len() as int + 1;
    assert(all.take(n) =~= header.push((268u32, value)));
    assert(all.skip(n) =~= rest);
}

proof fn lemma_head_len(header: Seq<(u32, Seq<u8>)>, value: Seq<u8>, rest: Seq<(u32, Seq<u8>)>)
    requires
        forall|i: int| 0 <= i < header.len() ==> (#[trigger] header[i]).0 != 268,
    ensures
        head_len(header.push((268u32, value)) + rest) == header.len() + 1,
    decreases header.len(),
{
    let all = header.push((268u32, value)) + rest;
    if header.len() > 0 {
        assert(all[0] == header[0]);
        let shorter = header.skip(1);
        assert forall|i: int| 0 <= i < shorter.len() implies (#[trigger] shorter[i]).0 != 268 by {
            assert(shorter[i] == header[i + 1]);
        }
        assert(all.skip(1) =~= shorter.push((268u32, value)) + rest);
        lemma_head_len(shorter, value, rest);
    } else {
        assert(all[0] == (268u32, value));
    }
}

/// The tags of an entry are those from 268 to 273, and the tags that frame a
/// message are 8, 9 and 10.
pub proof fn entry_and_framing_tags(tag: u32)
    ensures
        is_entry_tag(tag) <==> 268 <= tag <= 273,
        is_framing_tag(tag) <==> 8 <= tag <= 10,
{
}

/// An MDEntryNo announces a trade exactly where it is a number that is one.
pub proof fn one_entry_announces_a_trade(value: Seq<u8>, n: nat)
    ensures
        announces_trade(decimal_bytes(n)) <==> n == 1,
        announces_trade(value) <==> (forall|i: int| 0 <= i < value.len() ==> 0x30 <= #[trigger] value[i] <= 0x39)
            && digits_value(value) == 1,
{
    written_number_reads_back(n);
    digits_are_zero_to_nine(decimal_bytes(n));
    digits_are_zero_to_nine(value);
}

/// Every field of a header is taken over in its order, up to the first that is
/// not text.
pub proof fn header_takes_over_every_field(fields: Seq<(u32, Seq<u8>)>, tag: u32, value: Seq<u8>)
    ensures
        header_group(seq![]).fields.len() == 0,
        header_group(seq![]).fault is None,
        ({
            let before = header_group(fields);
            let after = header_group(fields.push((tag, value)));
            &&& before.fault is Some ==> after == before
            &&& before.fault is None && valid_utf8(value) ==> after.fault is None && after.fields
                == before.fields.push((tag, FieldText::Single(decode_utf8(value))))
            &&& before.fault is None && !valid_utf8(value) ==> after.fault is Some && after.fields == before.fields
        }),
{
    assert(fields.push((tag, value)).drop_last() =~= fields);
}

/// Every entry field of a trade is taken over in its order; the checksum is
/// passed over; any other field is an error.
pub proof fn trade_takes_over_every_entry_field(fields: Seq<(u32, Seq<u8>)>, tag: u32, value: Seq<u8>)
    ensures
        trade_group(seq![]).fields.len() == 0,
        trade_group(seq![]).fault is None,
        ({
            let before = trade_group(fields);
            let after = trade_group(fields.push((tag, value)));
            &&& before.fault is Some || tag == 10 ==> after == before
            &&& before.fault is None && 268 <= tag <= 273 && valid_utf8(value) ==> after.fault is None
                && after.fields == before.fields.push((tag, FieldText::Single(decode_utf8(value))))
            &&& before.fault is None && 268 <= tag <= 273 && !valid_utf8(value) ==> after.fault is Some
                && after.fields == before.fields
            &&& before.fault is None && tag != 10 && !(268 <= tag <= 273) ==> after.fault == Some(
                ParsingFault::FailToLoad(LoadFault::UnexpectedTag),
            )
        }),
{
    assert(fields.push((tag, value)).drop_last() =~= fields);
}

/// A quote collects a price and a size for each of its two sides, the second of
/// which begins where MDEntryNo occurs again; its other entry fields are taken
/// over in their order; the checksum is passed over; any other field is an error.
pub proof fn quote_collects_two_sides(fields: Seq<(u32, Seq<u8>)>, tag: u32, value: Seq<u8>)
    ensures
        ({
            let none = quote_group(seq![]);
            &&& none.group.fields.len() == 0 && none.group.fault is None && !none.second
            &&& none.px.0.len() == 0 && none.px.1.len() == 0 && none.size.0.len() == 0 && none.size.1.len() == 0
        }),
        ({
            let before = quote_group(fields);
            let after = quote_group(fields.push((tag, value)));
            let text = decode_utf8(value);
            &&& before.group.fault is Some || tag == 10 ==> after == before
            &&& before.group.fault is None && tag != 10 && !(268 <= tag <= 273) ==> after.group.fault == Some(
                ParsingFault::FailToLoad(LoadFault::UnexpectedTag),
            )
            &&& before.group.fault is None && 268 <= tag <= 273 && !valid_utf8(value) ==> after.group.fault is Some
            &&& before.group.fault is None && 268 <= tag <= 273 && valid_utf8(value) ==> {
                &&& after.group.fault is None
                &&& after.second == (before.second || tag == 268)
                &&& tag == 270 || tag == 271 ==> after.group.fields == before.group.fields
                &&& tag != 270 && tag != 271 ==> after.group.fields == before.group.fields.push(
                    (tag, FieldText::Single(text)),
                )
                &&& tag == 270 && !before.second ==> after.px == (text, before.px.1)
                &&& tag == 270 && before.second ==> after.px == (before.px.0, text)
                &&& tag != 270 ==> after.px == before.px
                &&& tag == 271 && !before.second ==> after.size == (text, before.size.1)
                &&& tag == 271 && before.second ==> after.size == (before.size.0, text)
                &&& tag != 271 ==> after.size == before.size
            }
        }),
{
    assert(fields.push((tag, value)).drop_last() =~= fields);
}

/// What a quote's entries add to its message is their single fields, then the
/// pair of prices, then the pair of sizes.
pub proof fn quote_ends_with_its_sides(quote: QuoteGroup)
    ensures
        quote_fields(quote) == quote.group.fields + seq![
            (270u32, FieldText::Pair(quote.px.0, quote.px.1)),
            (271u32, FieldText::Pair(quote.size.0, quote.size.1)),
        ],
{
    assert(quote_fields(quote) =~= quote.group.fields + seq![
        (270u32, FieldText::Pair(quote.px.0, quote.px.1)),
        (271u32, FieldText::Pair(quote.size.0, quote.size.1)),
    ]);
}

/// A message is its header and then its entries, read as a trade exactly where
/// the header ends by announcing one; the first error decides.
pub proof fn message_is_header_and_entries(head: Seq<(u32, Seq<u8>)>, tail: Seq<(u32, Seq<u8>)>)
    ensures
        ({
            let header = header_group(head);
            let trade = head.len() > 0 && head.last().0 == 268 && announces_trade(head.last().1);
            &&& header.fault matches Some(fault) ==> assembled(head, tail) == Err::<
                Seq<(u32, FieldText)>,
                ParsingFault,
            >(fault)
            &&& header.fault is None && trade ==> match trade_group(tail).fault {
                Some(fault) => assembled(head, tail) == Err::<Seq<(u32, FieldText)>, ParsingFault>(fault),
                None => assembled(head, tail) == Ok::<Seq<(u32, FieldText)>, ParsingFault>(
                    header.fields + trade_group(tail).fields,
                ),
            }
            &&& header.fault is None && !trade ==> match quote_group(tail).group.fault {
                Some(fault) => assembled(head, tail) == Err::<Seq<(u32, FieldText)>, ParsingFault>(fault),
                None => assembled(head, tail) == Ok::<Seq<(u32, FieldText)>, ParsingFault>(
                    header.fields + quote_fields(quote_group(tail)),
                ),
            }
        }),
{
}

/// A message is decoded from all of its fields: those up to the first MDEntryNo
/// as its header and those behind it as its entries, or all of them as its header
/// where MDEntryNo does not occur.
pub proof fn message_is_decoded_from_all_its_fields(
    header: Seq<(u32, Seq<u8>)>,
    value: Seq<u8>,
    rest: Seq<(u32, Seq<u8>)>,
)
    requires
        all_delimiter_free(header.push((268u32, value)) + rest),
        forall|i: int| 0 <= i < header.len() ==> (#[trigger] header[i]).0 != 268,
    ensures
        decoded(fields_bytes(header.push((268u32, value)) + rest)) == assembled(header.push((268u32, value)), rest),
        decoded(fields_bytes(header)) == assembled(header, seq![]),
{
    header_ends_with_the_first_entry_number(header, value, rest);
    let all = header.push((268u32, value)) + rest;
    assert forall|i: int| 0 <= i < header.len() implies delimiter_free(#[trigger] header[i].1) by {
        assert(all[i] == header[i]);
    }
    let data = fields_bytes(header);
    assert(data.skip(0) =~= data);
    lemma_head_read_back(data, 0, header);
    lemma_head_len_of_all(header);
    assert(header.take(header.len() as int) =~= header);
    assert(header.skip(header.len() as int) =~= seq![]);
}

proof fn lemma_head_len_of_all(header: Seq<(u32, Seq<u8>)>)
    requires
        forall|i: int| 0 <= i < header.len() ==> (#[trigger] header[i]).0 != 268,
    ensures
        head_len(header) == header.len(),
    decreases header.len(),
{
    if header.len() > 0 {
        assert(header[0].0 != 268);
        let shorter = header.skip(1);
        assert forall|i: int| 0 <= i < shorter.len() implies (#[trigger] shorter[i]).0 != 268 by {
            assert(shorter[i] == header[i + 1]);
        }
        lemma_head_len_of_all(shorter);
    }
}

proof fn lemma_byte_sum(a: Seq<u8>, b: Seq<u8>)
    ensures
        byte_sum(a + b) == byte_sum(a) + byte_sum(b),
    decreases b.len(),
{
    if b.len() == 0 {
        assert(a + b =~= a);
    } else {
        lemma_byte_sum(a, b.drop_last());
        assert((a + b).drop_last() =~= a + b.drop_last());
    }
}

/// The checksum adds up every byte, wherever it stands.
pub proof fn every_byte_counts_in_the_checksum(a: Seq<u8>, b: Seq<u8>, byte: u8)
    ensures
        byte_sum(a + b) == byte_sum(a) + byte_sum(b),
        byte_sum(a + b) % 256 == (byte_sum(a) % 256 + byte_sum(b) % 256) % 256,
        byte_sum(seq![byte]) == byte,
        byte_sum(seq![]) == 0,
{
    lemma_byte_sum(a, b);
    let x = byte_sum(a);
    let y = byte_sum(b);
    assert((x + y) % 256 == (x % 256 + y % 256) % 256);
    assert(seq![byte].drop_last() =~= seq![]);
    assert(byte_sum(seq![]) == 0);
}

/// A checksum is written in three digits, which read back as the number.
pub proof fn checksum_has_three_digits(n: nat)
    requires
        n < 1000,
    ensures
        three_digits(n).len() == 3,
        all_digits(three_digits(n)),
        digits_value(three_digits(n)) == n,
{
    let d = three_digits(n);
    reveal_with_fuel(digits_value, 4);
    assert(d.drop_last().drop_last().drop_last() =~= seq![]);
    assert(d.drop_last().drop_last().last() == d[0]);
    assert(d.drop_last().last() == d[1]);
}

/// The body of a message is its fields one after another, in their order, but
/// for those that frame a message.
pub proof fn body_holds_every_field_in_order(
    a: Seq<(u32, FieldText)>,
    b: Seq<(u32, FieldText)>,
    tag: u32,
    text: Seq<char>,
)
    ensures
        body_bytes(a + b) == body_bytes(a) + body_bytes(b),
        body_bytes(seq![]) == Seq::<u8>::empty(),
        8 <= tag <= 10 ==> body_bytes(seq![(tag, FieldText::Single(text))]) == Seq::<u8>::empty(),
        !(8 <= tag <= 10) ==> body_bytes(seq![(tag, FieldText::Single(text))]) == decimal_bytes(tag as nat) + seq![
            0x3du8,
        ] + encode_utf8(text) + seq![0x01u8],
    decreases b.len(),
{
    reveal_with_fuel(body_bytes, 2);
    let one = seq![(tag, FieldText::Single(text))];
    assert(one.drop_last() =~= seq![]);
    assert(body_bytes(one) =~= (if 8 <= tag <= 10 {
        seq![]
    } else {
        decimal_bytes(tag as nat) + seq![0x3du8] + encode_utf8(text) + seq![0x01u8]
    }));
    if b.len() == 0 {
        assert(a + b =~= a);
        assert(body_bytes(a + b) =~= body_bytes(a) + body_bytes(b));
    } else {
        body_holds_every_field_in_order(a, b.drop_last(), tag, text);
        assert((a + b).drop_last() =~= a + b.drop_last());
        assert(body_bytes(a + b) =~= body_bytes(a) + body_bytes(b));
    }
}

/// A message with a pair anywhere in its body is not written, and only such a
/// message is not.
pub proof fn pair_anywhere_stops_writing(a: Seq<(u32, FieldText)>, b: Seq<(u32, FieldText)>, field: (u32, FieldText))
    ensures
        has_pair(a + seq![field] + b) <==> has_pair(a) || has_pair(b) || (!(8 <= field.0 <= 10) && field.1 is Pair),
        !has_pair(seq![]),
{
    let all = a + seq![field] + b;
    let n = a.len() as int;
    if has_pair(a) {
        let i = choose|i: int| 0 <= i < a.len() && !is_framing_tag(#[trigger] a[i].0) && a[i].1 is Pair;
        assert(all[i] == a[i]);
        assert(!is_framing_tag(all[i].0) && all[i].1 is Pair);
    }
    if has_pair(b) {
        let i = choose|i: int| 0 <= i < b.len() && !is_framing_tag(#[trigger] b[i].0) && b[i].1 is Pair;
        assert(all[n + 1 + i] == b[i]);
        assert(!is_framing_tag(all[n + 1 + i].0) && all[n + 1 + i].1 is Pair);
    }
    assert(all[n] == field);
    if !(8 <= field.0 <= 10) && field.1 is Pair {
        assert(!is_framing_tag(all[n].0) && all[n].1 is Pair);
    }
    if has_pair(all) {
        let i = choose|i: int| 0 <= i < all.len() && !is_framing_tag(#[trigger] all[i].0) && all[i].1 is Pair;
        if i < n {
            assert(!is_framing_tag(a[i].0) && a[i].1 is Pair);
        } else if i > n {
            assert(!is_framing_tag(b[i - n - 1].0) && b[i - n - 1].1 is Pair);
        }
    }
}

/// A message on the wire is the version, the length of its body, its body, and
/// the sum of all bytes before it, modulo 256, in three digits.
pub proof fn message_on_the_wire_is_framed(fields: Seq<(u32, FieldText)>)
    ensures
        ({
            let body = body_bytes(fields);
            let full = seq![
                0x38u8, 0x3d, 0x46, 0x49, 0x58, 0x2e, 0x34, 0x2e, 0x34, 0x01, 0x39, 0x3d,
            ] + decimal_bytes(body.len()) + seq![0x01u8] + body;
            wire_bytes(fields) == full + seq![0x31u8, 0x30, 0x3d] + three_digits(byte_sum(full) % 256) + seq![0x01u8]
        }),
{
    reveal_strlit("FIX.4.4");
    is_ascii_chars_encode_utf8("FIX.4.4"@);
    assert(encode_utf8("FIX.4.4"@) =~= seq![0x46u8, 0x49, 0x58, 0x2e, 0x34, 0x2e, 0x34]);
    assert(decimal_bytes(8) =~= seq![0x38u8]);
    assert(decimal_bytes(9) =~= seq![0x39u8]);
    assert(decimal_bytes(1) =~= seq![0x31u8]);
    assert(decimal_bytes(10) =~= seq![0x31u8, 0x30]);
    let body = body_bytes(fields);
    let full = seq![
        0x38u8, 0x3d, 0x46, 0x49, 0x58, 0x2e, 0x34, 0x2e, 0x34, 0x01, 0x39, 0x3d,
    ] + decimal_bytes(body.len()) + seq![0x01u8] + body;
    assert(preamble_bytes(body.len()) + body =~= full);
    assert(wire_bytes(fields) =~= full + seq![0x31u8, 0x30, 0x3d] + three_digits(byte_sum(full) % 256) + seq![
        0x01u8,
    ]);
}

proof fn lemma_field_here(data: Seq<u8>, front: Seq<u8>, tag: u32, value: Seq<u8>, rest: Seq<u8>)
    requires
        data == front + field_bytes(tag, value) + rest,
        delimiter_free(value),
    ensures
        field_at(data, front.len() as int) == (
            (front.len() + field_bytes(tag, value).len()) as int,
            Some((tag, value)),
        ),
{
    let pos = front.len() as int;
    assert(data.subrange(pos, pos + field_bytes(tag, value).len()) =~= field_bytes(tag, value));
    written_field_is_read_back(data, pos, tag, value);
}

/// The two fields at the front of a message say how long it is, whatever version
/// it names: as long as the two fields, the length that they give, and the seven
/// bytes of the checksum. It is cut off exactly where that much has arrived.
pub proof fn header_tells_the_length(version: Seq<u8>, body_len: nat, rest: Seq<u8>)
    requires
        delimiter_free(version),
        body_len <= usize::MAX,
    ensures
        ({
            let header = seq![0x38u8, 0x3d] + version + seq![0x01u8, 0x39, 0x3d] + decimal_bytes(body_len) + seq![
                0x01u8,
            ];
            frame(header + rest) == (if body_len + 7 <= rest.len() {
                Ok::<Option<int>, ParsingFault>(Some((header.len() + body_len + 7) as int))
            } else {
                Ok::<Option<int>, ParsingFault>(None)
            })
        }),
{
    let digits = decimal_bytes(body_len);
    let first = field_bytes(8, version);
    let second = field_bytes(9, digits);
    let header = seq![0x38u8, 0x3d] + version + seq![0x01u8, 0x39, 0x3d] + digits + seq![0x01u8];
    assert(decimal_bytes(8) =~= seq![0x38u8]);
    assert(decimal_bytes(9) =~= seq![0x39u8]);
    assert(header =~= first + second);
    let data = header + rest;
    assert(data =~= seq![] + first + (second + rest));
    assert(data =~= first + second + rest);
    lemma_field_here(data, seq![], 8, version, second + rest);
    lemma_decimal_bytes(body_len);
    lemma_digits_delimiter_free(digits);
    lemma_field_here(data, first, 9, digits, rest);
    assert(is_digit(digits[0]));
    assert(usize_value(digits) == Some(body_len as usize));
}

/// What does not begin with the version and the length of a message is refused.
pub proof fn other_headers_are_refused(tag: u32, version: Seq<u8>, value: Seq<u8>, rest: Seq<u8>)
    requires
        delimiter_free(version),
        delimiter_free(value),
    ensures
        tag != 8 ==> frame(field_bytes(tag, version) + rest) == Err::<Option<int>, ParsingFault>(
            ParsingFault::NotValidVal,
        ),
        tag != 9 ==> frame(field_bytes(8, version) + field_bytes(tag, value) + rest) == Err::<
            Option<int>,
            ParsingFault,
        >(ParsingFault::NotValidVal),
        usize_value(value) is None ==> frame(field_bytes(8, version) + field_bytes(9, value) + rest) == Err::<
            Option<int>,
            ParsingFault,
        >(ParsingFault::NotValidVal),
{
    let alone = field_bytes(tag, version) + rest;
    assert(alone =~= seq![] + field_bytes(tag, version) + rest);
    lemma_field_here(alone, seq![], tag, version, rest);
    let first = field_bytes(8, version);
    let second = field_bytes(tag, value);
    let two = first + second + rest;
    assert(two =~= seq![] + first + (second + rest));
    lemma_field_here(two, seq![], 8, version, second + rest);
    lemma_field_here(two, first, tag, value, rest);
    let third = field_bytes(9, value);
    let both = first + third + rest;
    assert(both =~= seq![] + first + (third + rest));
    lemma_field_here(both, seq![], 8, version, third + rest);
    lemma_field_here(both, first, 9, value, rest);
    if rest.len() == 0 {
        assert(both.last() == 0x01);
    }
}

proof fn lemma_open_length(version: Seq<u8>, value: Seq<u8>)
    requires
        delimiter_free(version),
        delimiter_free(value),
    ensures
        ({
            let data = field_bytes(8, version) + seq![0x39u8, 0x3d] + value;
            let pos = field_bytes(8, version).len() as int;
            &&& field_at(data, 0) == (pos, Some((8u32, version)))
            &&& field_at(data, pos) == (data.len() as int, Some((9u32, value)))
        }),
{
    let first = field_bytes(8, version);
    let open = first + seq![0x39u8, 0x3d] + value;
    let pos = first.len() as int;
    assert(open =~= seq![] + first + (seq![0x39u8, 0x3d] + value));
    lemma_field_here(open, seq![], 8, version, seq![0x39u8, 0x3d] + value);
    reveal_with_fuel(scan_tag, 3);
    assert(open[pos] == 0x39 && open[pos + 1] == 0x3d);
    lemma_value_end(open, pos + 2);
    if value_end(open, pos + 2) < open.len() {
        let k = value_end(open, pos + 2) - (pos + 2);
        assert(value[k] == 0x01);
        assert(value.contains(0x01));
    }
    assert(open.subrange(pos + 2, open.len() as int) =~= value);
}

/// A message whose length has arrived without its delimiter is waited for; so is
/// one of whose length nothing but a plus sign has arrived; anything else in
/// place of the length is refused.
pub proof fn unfinished_length_is_waited_for(version: Seq<u8>, value: Seq<u8>)
    requires
        delimiter_free(version),
        delimiter_free(value),
    ensures
        ({
            let data = field_bytes(8, version) + seq![0x39u8, 0x3d] + value;
            &&& usize_value(value) is Some || value.len() == 0 || value == seq![0x2bu8] ==> frame(data) == Ok::<
                Option<int>,
                ParsingFault,
            >(None)
            &&& usize_value(value) is None && value.len() > 0 && value != seq![0x2bu8] ==> frame(data) == Err::<
                Option<int>,
                ParsingFault,
            >(ParsingFault::NotValidVal)
        }),
{
    let data = field_bytes(8, version) + seq![0x39u8, 0x3d] + value;
    lemma_open_length(version, value);
    if value.len() > 0 {
        assert(data.last() == value.last());
        if data.last() == 0x01 {
            assert(value.contains(0x01));
        }
    }
    other_bytes_are_no_number(value, 0);
    assert(frame(data) is Ok ==> frame(data) == Ok::<Option<int>, ParsingFault>(None));
}

/// However the two fields at the front of a message are written, they decide: the
/// first has to be the version, and the second the length, which counts from
/// behind it and to which the seven bytes of the checksum are added.
pub proof fn first_two_fields_decide(data: Seq<u8>)
    ensures
        field_at(data, 0) matches (begin, Some((first, _))) ==> {
            &&& first != 8 ==> frame(data) == Err::<Option<int>, ParsingFault>(ParsingFault::NotValidVal)
            &&& first == 8 ==> (field_at(data, begin) matches (after, Some((second, value))) ==> {
                &&& second != 9 ==> frame(data) == Err::<Option<int>, ParsingFault>(ParsingFault::NotValidVal)
                &&& second == 9 ==> (usize_value(value) matches Some(n) ==> frame(data) == (if after + n + 7
                    <= data.len() {
                    Ok::<Option<int>, ParsingFault>(Some(after + n + 7))
                } else {
                    Ok::<Option<int>, ParsingFault>(None)
                }))
            })
        },
{
}

/// Where no field can be read yet there is nothing to refuse.
pub proof fn unreadable_header_is_waited_for(data: Seq<u8>)
    ensures
        field_at(data, 0).1 is None ==> frame(data) == Ok::<Option<int>, ParsingFault>(None),
        field_at(data, 0).1 matches Some((tag, _)) && tag == 8 && field_at(data, field_at(data, 0).0).1 is None
            ==> frame(data) == Ok::<Option<int>, ParsingFault>(None),
{
}

/// While no second field has arrived there is nothing to refuse.
pub proof fn unfinished_header_is_waited_for(version: Seq<u8>)
    requires
        delimiter_free(version),
    ensures
        frame(seq![]) == Ok::<Option<int>, ParsingFault>(None),
        frame(field_bytes(8, version)) == Ok::<Option<int>, ParsingFault>(None),
        frame(field_bytes(8, version) + seq![0x39u8, 0x3d]) == Ok::<Option<int>, ParsingFault>(None),
{
    let first = field_bytes(8, version);
    assert(first =~= seq![] + first + seq![]);
    lemma_field_here(first, seq![], 8, version, seq![]);
    let open = first + seq![0x39u8, 0x3d];
    assert(open =~= seq![] + first + seq![0x39u8, 0x3d]);
    lemma_field_here(open, seq![], 8, version, seq![0x39u8, 0x3d]);
    reveal_with_fuel(scan_tag, 3);
    let pos = first.len() as int;
    assert(open[pos] == 0x39 && open[pos + 1] == 0x3d);
    assert(value_end(open, pos + 2) == pos + 2);
    assert(open.subrange(pos + 2, pos + 2) =~= seq![]);
}

} // verus!
