//! What a session does about the messages of the exchange.
use vstd::prelude::*;
use vstd::utf8::*;

use crate::errors::ParsingFault;
use crate::fix::codec::decoded;
use crate::fix::raw_msg::{value_from, value_of, FieldText};
use crate::laws::messages::has_header;
use crate::laws::ticks::{text_under, tick_says_what_its_message_says};
use crate::network::framing::frame;
use crate::network::session::{next_message_of, Reaction, Session, StopReason};
use crate::text::{decimal, digits_value, i32_value};
use crate::types::{Prices, Tick};
use crate::utils::times::Timestamp;

verus! {

proof fn lemma_message_types()
    ensures
        "1"@ != "W"@,
        "1"@ != "X"@,
        "1"@ != "2"@,
        "1"@ != "5"@,
        "W"@ != "X"@,
        "W"@ != "2"@,
        "W"@ != "5"@,
        "X"@ != "2"@,
        "X"@ != "5"@,
        "2"@ != "5"@,
{
    reveal_strlit("1");
    reveal_strlit("2");
    reveal_strlit("5");
    reveal_strlit("W");
    reveal_strlit("X");
    assert("1"@[0] == '1');
    assert("2"@[0] == '2');
    assert("5"@[0] == '5');
    assert("W"@[0] == 'W');
    assert("X"@[0] == 'X');
}

/// Market data is forwarded, from a snapshot and from an incremental refresh
/// alike: a message of either type that names a symbol and holds a tick and a
/// time becomes the tick of that symbol, that time and the values that the
/// message says. One that holds none is ignored. Neither moves the sequence
/// number, and the symbol is known from there on.
pub proof fn market_data_is_forwarded(
    session: &Session,
    fields: Seq<(u32, FieldText)>,
    kind: Seq<char>,
    symbol: Seq<char>,
    prices: Prices,
    time: Option<Timestamp>,
    sending_time: Seq<char>,
    after: &Session,
    reaction: Reaction,
)
    requires
        session.answers(fields, prices, time, sending_time, after, reaction),
        text_under(fields, 35, kind),
        kind == "W"@ || kind == "X"@,
        text_under(fields, 55, symbol),
    ensures
        after.seq == session.seq,
        session.cache@.contains(symbol) ==> after.cache@ == session.cache@,
        !session.cache@.contains(symbol) ==> after.cache@ == session.cache@.push(symbol),
        Tick::fault(fields, prices) is Some || time is None ==> reaction is Ignore,
        Tick::fault(fields, prices) is None && time is Some ==> (reaction matches Reaction::Forward(tick)
            && tick.held_by(fields, symbol, prices, time) && match tick {
            Tick::Trade(trade) => {
                &&& trade.ticker_name@ == symbol
                &&& Some(trade.receive_time) == time
                &&& Some(trade.trade_px) == prices.single
                &&& value_of(fields, 271) matches Some(FieldText::Single(size))
                &&& i32_value(size) matches Some(volume)
                &&& (trade.trade_vol - volume) % 0x1_0000_0000 == 0
            },
            Tick::Quote(quote) => {
                &&& quote.ticker_name@ == symbol
                &&& Some(quote.receive_time) == time
                &&& (Some(quote.bid_price), Some(quote.ask_price)) == prices.pair
                &&& value_of(fields, 271) matches Some(FieldText::Pair(bid, ask))
                &&& i32_value(bid) matches Some(bid_volume)
                &&& i32_value(ask) matches Some(ask_volume)
                &&& (quote.bid_vol - bid_volume) % 0x1_0000_0000 == 0
                &&& (quote.ask_vol - ask_volume) % 0x1_0000_0000 == 0
            },
        }),
{
    lemma_message_types();
    if Tick::fault(fields, prices) is None && time is Some {
        if let Reaction::Forward(tick) = reaction {
            tick_says_what_its_message_says(tick, fields, symbol, prices, time);
        }
    }
}

/// Market data without a symbol is ignored, and changes nothing.
pub proof fn market_data_without_a_symbol_is_ignored(
    session: &Session,
    fields: Seq<(u32, FieldText)>,
    kind: Seq<char>,
    prices: Prices,
    time: Option<Timestamp>,
    sending_time: Seq<char>,
    after: &Session,
    reaction: Reaction,
)
    requires
        session.answers(fields, prices, time, sending_time, after, reaction),
        text_under(fields, 35, kind),
        kind == "W"@ || kind == "X"@,
        !(value_of(fields, 55) matches Some(FieldText::Single(_))),
    ensures
        reaction is Ignore,
        after.seq == session.seq,
        after.cache@ == session.cache@,
{
    lemma_message_types();
}

/// A test request is answered by a heartbeat with the next sequence number, which
/// carries the id of the request.
pub proof fn test_request_is_answered(
    session: &Session,
    fields: Seq<(u32, FieldText)>,
    prices: Prices,
    time: Option<Timestamp>,
    sending_time: Seq<char>,
    after: &Session,
    reaction: Reaction,
)
    requires
        session.answers(fields, prices, time, sending_time, after, reaction),
        text_under(fields, 35, "1"@),
    ensures
        after.seq == session.seq + 1,
        after.cache@ == session.cache@,
        reaction matches Reaction::Send(msg) && has_header(
            msg@,
            "0"@,
            (session.seq + 1) as nat,
            session.config,
            sending_time,
        ) && match value_of(fields, 112) {
            Some(FieldText::Single(id)) => text_under(msg@, 112, id),
            _ => value_of(msg@, 112) is None,
        },
{
    lemma_message_types();
    reveal_with_fuel(value_from, 7);
}

/// A resend request is answered by filling the gap: the reply takes the number
/// that the request begins with, and says that the next one is past all that was
/// sent. A request without such a number ends the session.
pub proof fn resend_request_is_answered(
    session: &Session,
    fields: Seq<(u32, FieldText)>,
    prices: Prices,
    time: Option<Timestamp>,
    sending_time: Seq<char>,
    after: &Session,
    reaction: Reaction,
)
    requires
        session.answers(fields, prices, time, sending_time, after, reaction),
        session.ready_for(fields),
        text_under(fields, 35, "2"@),
    ensures
        after.cache@ == session.cache@,
        match value_of(fields, 7) {
            Some(FieldText::Single(begin)) => {
                &&& after.seq == session.seq + 1
                &&& reaction matches Reaction::Send(msg)
                &&& has_header(msg@, "4"@, digits_value(encode_utf8(begin)), session.config, sending_time)
                &&& text_under(msg@, 36, decimal((session.seq + 1) as nat))
                &&& text_under(msg@, 123, "Y"@)
                &&& text_under(msg@, 43, "Y"@)
            },
            Some(FieldText::Pair(_, _)) => after.seq == session.seq && reaction == Reaction::Stop(
                StopReason::BeginSeqNotSingle,
            ),
            None => after.seq == session.seq && reaction == Reaction::Stop(StopReason::BeginSeqMissing),
        },
{
    lemma_message_types();
    reveal_with_fuel(value_from, 9);
}

/// A logout ends the session.
pub proof fn logout_ends_the_session(
    session: &Session,
    fields: Seq<(u32, FieldText)>,
    prices: Prices,
    time: Option<Timestamp>,
    sending_time: Seq<char>,
    after: &Session,
    reaction: Reaction,
)
    requires
        session.answers(fields, prices, time, sending_time, after, reaction),
        text_under(fields, 35, "5"@),
    ensures
        reaction == Reaction::Stop(StopReason::Logout),
        after.seq == session.seq,
        after.cache@ == session.cache@,
{
    lemma_message_types();
}

/// Every other message is ignored, and changes nothing.
pub proof fn other_messages_are_ignored(
    session: &Session,
    fields: Seq<(u32, FieldText)>,
    prices: Prices,
    time: Option<Timestamp>,
    sending_time: Seq<char>,
    after: &Session,
    reaction: Reaction,
)
    requires
        session.answers(fields, prices, time, sending_time, after, reaction),
        match value_of(fields, 35) {
            Some(FieldText::Single(kind)) => kind != "1"@ && kind != "2"@ && kind != "5"@ && kind != "W"@ && kind
                != "X"@,
            _ => true,
        },
    ensures
        reaction is Ignore,
        after.seq == session.seq,
        after.cache@ == session.cache@,
{
}

/// A session can react to every message but one that needs a reply where no
/// sequence number is left, or a resend request whose number cannot be read.
pub proof fn session_is_ready_for_almost_everything(session: &Session, fields: Seq<(u32, FieldText)>)
    ensures
        session.ready_for(fields) <==> match value_of(fields, 35) {
            Some(FieldText::Single(kind)) => {
                &&& kind == "1"@ ==> session.seq < 0xffff_ffff
                &&& kind == "2"@ ==> (value_of(fields, 7) matches Some(FieldText::Single(begin)) ==> {
                    let bytes = encode_utf8(begin);
                    &&& session.seq < 0xffff_ffff
                    &&& forall|i: int| 0 <= i < bytes.len() ==> #[trigger] bytes[i] >= 0x30
                    &&& digits_value(bytes) <= 0xffff_ffff
                })
            },
            _ => true,
        },
{
    lemma_message_types();
}

/// The next message of a stream is the first complete one that can be decoded;
/// what precedes it is passed over, and nothing behind it is touched.
pub proof fn next_message_is_the_first_that_can_be_decoded(data: Seq<u8>, len: int)
    ensures
        frame(data) == Ok::<Option<int>, ParsingFault>(Some(len)) && 0 < len <= data.len() ==> next_message_of(data)
            == (match decoded(data.take(len)) {
            Ok(fields) => (Some(fields), data.skip(len)),
            Err(_) => next_message_of(data.skip(len)),
        }),
        !(frame(data) matches Ok(Some(_))) ==> next_message_of(data) == (None::<Seq<(u32, FieldText)>>, data),
{
}

} // verus!
