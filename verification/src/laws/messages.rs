//! Messages as lists of fields.
use vstd::prelude::*;
use vstd::utf8::*;

use crate::config::LogOnConfig;
use crate::errors::{load_message, parsing_message, LoadFault, ParsingFault};
use crate::fix::messages::{
    heartbeat_fields, logon_fields, market_data_request_fields, seq_number_reset_fields,
};
use crate::fix::raw_msg::{
    int_of, pair_int_of, pair_of, single_field, single_of, value_from, value_of, FieldText,
};
use crate::std_text::utf8_error_text;
use crate::text::{decimal, i32_value, signed_decimal};

verus! {

proof fn lemma_value_from(fields: Seq<(u32, FieldText)>, tag: u32, i: int)
    requires
        0 <= i <= fields.len(),
    ensures
        match value_from(fields, tag, i) {
            Some(value) => exists|k: int|
                i <= k < fields.len() && #[trigger] fields[k] == (tag, value) && forall|j: int|
                    i <= j < k ==> (#[trigger] fields[j]).0 != tag,
            None => forall|k: int| i <= k < fields.len() ==> (#[trigger] fields[k]).0 != tag,
        },
    decreases fields.len() - i,
{
    if i < fields.len() {
        if fields[i].0 == tag {
            assert(fields[i] == (tag, fields[i].1));
        } else {
            lemma_value_from(fields, tag, i + 1);
            if value_from(fields, tag, i + 1) is Some {
                let value = value_from(fields, tag, i + 1)->Some_0;
                let k = choose|k: int|
                    i + 1 <= k < fields.len() && #[trigger] fields[k] == (tag, value) && forall|j: int|
                        i + 1 <= j < k ==> (#[trigger] fields[j]).0 != tag;
                assert(fields[k] == (tag, value));
            }
        }
    }
}

/// Looking up a tag finds the first field that has it, and nothing exactly where
/// none has.
pub proof fn lookup_finds_the_first_field(fields: Seq<(u32, FieldText)>, tag: u32)
    ensures
        match value_of(fields, tag) {
            Some(value) => exists|k: int|
                0 <= k < fields.len() && #[trigger] fields[k] == (tag, value) && forall|j: int|
                    0 <= j < k ==> (#[trigger] fields[j]).0 != tag,
            None => forall|k: int| 0 <= k < fields.len() ==> (#[trigger] fields[k]).0 != tag,
        },
{
    lemma_value_from(fields, tag, 0);
}

/// A single text is found as one, and never as a pair, and the other way round;
/// numbers are what the texts read as.
pub proof fn values_are_found_as_what_they_are(fields: Seq<(u32, FieldText)>, tag: u32, a: Seq<char>, b: Seq<char>)
    ensures
        value_of(fields, tag) == Some(FieldText::Single(a)) ==> single_of(fields, tag) == Some(a) && pair_of(
            fields,
            tag,
        ) is None && int_of(fields, tag) == i32_value(a) && pair_int_of(fields, tag) == (None::<i32>, None::<i32>),
        value_of(fields, tag) == Some(FieldText::Pair(a, b)) ==> single_of(fields, tag) is None && pair_of(fields, tag)
            == Some((a, b)) && int_of(fields, tag) is None && pair_int_of(fields, tag) == (i32_value(a), i32_value(b)),
        value_of(fields, tag) is None ==> single_of(fields, tag) is None && pair_of(fields, tag) is None && int_of(
            fields,
            tag,
        ) is None && pair_int_of(fields, tag) == (None::<i32>, None::<i32>),
{
}

/// A value that is text is taken over as it is, under its own tag; one that is
/// not is refused with the reason.
pub proof fn values_are_taken_over_as_they_are(tag: u32, text: Seq<char>, value: Seq<u8>)
    ensures
        single_field(tag, encode_utf8(text)) == Ok::<(u32, FieldText), ParsingFault>((tag, FieldText::Single(text))),
        !valid_utf8(value) ==> single_field(tag, value) == Err::<(u32, FieldText), ParsingFault>(
            ParsingFault::FailToLoad(LoadFault::NotUtf8(utf8_error_text(value))),
        ),
{
    encode_utf8_valid_utf8(text);
    encode_utf8_decode_utf8(text);
}

/// Every error says what it is about: how many entries a snapshot has, or what is
/// wrong with the data.
pub proof fn errors_say_what_is_wrong(remaining: i32, text: Seq<char>, load: LoadFault)
    ensures
        parsing_message(ParsingFault::NotCompleteSnapshot(remaining)) == "incomplete snapshot, "@ + signed_decimal(
            remaining as int,
        ) + " entries still expected"@,
        parsing_message(ParsingFault::FailToLoad(load)) == "failed to load: "@ + load_message(load),
        load_message(LoadFault::NotUtf8(text)) == text,
{
}

/// The fields that every message of a session has, under the tags of the
/// protocol.
pub open spec fn has_header(
    fields: Seq<(u32, FieldText)>,
    kind: Seq<char>,
    seq: nat,
    config: LogOnConfig,
    sending_time: Seq<char>,
) -> bool {
    &&& value_of(fields, 35) == Some(FieldText::Single(kind))
    &&& value_of(fields, 34) == Some(FieldText::Single(decimal(seq)))
    &&& value_of(fields, 49) == Some(FieldText::Single(config.sender_id@))
    &&& value_of(fields, 56) == Some(FieldText::Single(config.target_id@))
    &&& value_of(fields, 52) == Some(FieldText::Single(sending_time))
    &&& fields.len() >= 5
    &&& fields[0].0 == 35
}

/// A logon carries the credentials and the settings of the session.
pub proof fn logon_carries_the_settings(seq: u32, config: LogOnConfig, sending_time: Seq<char>)
    ensures
        ({
            let fields = logon_fields(seq, config, sending_time);
            &&& has_header(fields, "A"@, seq as nat, config, sending_time)
            &&& value_of(fields, 98) == Some(FieldText::Single("0"@))
            &&& value_of(fields, 108) == Some(FieldText::Single(decimal(config.heart_bt_int as nat)))
            &&& config.reset_seq_no ==> value_of(fields, 141) == Some(FieldText::Single("Y"@))
            &&& !config.reset_seq_no ==> value_of(fields, 141) == Some(FieldText::Single("N"@))
            &&& value_of(fields, 553) == Some(FieldText::Single(config.username@))
            &&& value_of(fields, 554) == Some(FieldText::Single(config.password@))
            &&& fields.len() == 10
        }),
{
    reveal_with_fuel(value_from, 11);
}

/// A heartbeat carries the id that it answers, where there is one, and no other
/// field.
pub proof fn heartbeat_carries_only_its_id(
    seq: u32,
    config: LogOnConfig,
    sending_time: Seq<char>,
    test_req_id: Option<Seq<char>>,
)
    ensures
        ({
            let fields = heartbeat_fields(seq, config, sending_time, test_req_id);
            &&& has_header(fields, "0"@, seq as nat, config, sending_time)
            &&& match test_req_id {
                Some(id) => value_of(fields, 112) == Some(FieldText::Single(id)) && fields.len() == 6,
                None => value_of(fields, 112) is None && fields.len() == 5,
            }
        }),
{
    reveal_with_fuel(value_from, 7);
}

/// A gap is filled up to the new number, marked as a duplicate.
pub proof fn sequence_reset_names_the_new_number(seq: u32, config: LogOnConfig, sending_time: Seq<char>, new_start: u32)
    ensures
        ({
            let fields = seq_number_reset_fields(seq, config, sending_time, new_start);
            &&& has_header(fields, "4"@, seq as nat, config, sending_time)
            &&& value_of(fields, 123) == Some(FieldText::Single("Y"@))
            &&& value_of(fields, 43) == Some(FieldText::Single("Y"@))
            &&& value_of(fields, 36) == Some(FieldText::Single(decimal(new_start as nat)))
            &&& fields.len() == 8
        }),
{
    reveal_with_fuel(value_from, 9);
}

/// A subscription asks for snapshots and updates of bids, offers and trades at
/// the top of the book, and names every symbol once, in the order given, behind
/// their number.
pub proof fn subscription_names_every_symbol(
    seq: u32,
    config: LogOnConfig,
    sending_time: Seq<char>,
    req_id: Seq<char>,
    symbols: Seq<String>,
)
    ensures
        ({
            let fields = market_data_request_fields(seq, config, sending_time, req_id, symbols);
            &&& has_header(fields, "V"@, seq as nat, config, sending_time)
            &&& value_of(fields, 262) == Some(FieldText::Single(req_id))
            &&& value_of(fields, 263) == Some(FieldText::Single("1"@))
            &&& value_of(fields, 264) == Some(FieldText::Single("1"@))
            &&& value_of(fields, 267) == Some(FieldText::Single(decimal(3)))
            &&& fields[9] == (269u32, FieldText::Single("0"@))
            &&& fields[10] == (269u32, FieldText::Single("1"@))
            &&& fields[11] == (269u32, FieldText::Single("2"@))
            &&& fields[12] == (146u32, FieldText::Single(decimal(symbols.len())))
            &&& fields.len() == 13 + symbols.len()
            &&& forall|i: int|
                0 <= i < symbols.len() ==> #[trigger] fields[13 + i] == (55u32, FieldText::Single(symbols[i]@))
        }),
{
    reveal_with_fuel(value_from, 14);
}

} // verus!
