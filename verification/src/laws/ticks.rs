//! What a market data message says.
use vstd::prelude::*;

use crate::errors::ParsingFault;
use crate::fix::raw_msg::{value_of, FieldText};
use crate::text::i32_value;
use crate::types::{
    entry_time, quote_entry, trade_entry, wrapped_u32, wrapped_u8, Price, Prices, Quote, QuoteEntry, Tick, Trade,
    TradeEntry,
};
use crate::utils::times::{combined, Timestamp};

verus! {

/// The single text under a tag.
pub open spec fn text_under(fields: Seq<(u32, FieldText)>, tag: u32, text: Seq<char>) -> bool {
    value_of(fields, tag) == Some(FieldText::Single(text))
}

/// A volume or a trade type that does not fit wraps round: it differs from what
/// was sent by a multiple of the size of its type.
pub proof fn volumes_wrap_round(n: i32)
    ensures
        0 <= wrapped_u32(n) < 0x1_0000_0000,
        (wrapped_u32(n) - n) % 0x1_0000_0000 == 0,
        0 <= wrapped_u8(n) < 0x100,
        (wrapped_u8(n) - n) % 0x100 == 0,
        n >= 0 ==> wrapped_u32(n) == n,
        0 <= n < 0x100 ==> wrapped_u8(n) == n,
{
}

/// A message with a size, a price, a date and a time holds the trade of just
/// these, and of the trade type that it names.
pub proof fn trade_holds_what_was_sent(
    fields: Seq<(u32, FieldText)>,
    size: Seq<char>,
    volume: i32,
    price: Price,
    date: Seq<char>,
    time: Seq<char>,
)
    requires
        text_under(fields, 271, size),
        i32_value(size) == Some(volume),
        text_under(fields, 272, date),
        text_under(fields, 273, time),
    ensures
        trade_entry(fields, Some(price)) matches Ok(entry) && entry.trade_px == price && entry.trade_vol == volume
            && entry.trd_type == (match value_of(fields, 828) {
            Some(FieldText::Single(kind)) => i32_value(kind),
            _ => None,
        }),
{
}

/// A message that lacks a size, a price, a date or a time, or whose size is no
/// number, holds no trade.
pub proof fn trade_with_a_gap_is_refused(fields: Seq<(u32, FieldText)>, px: Option<Price>)
    requires
        px is None || !(value_of(fields, 272) matches Some(FieldText::Single(_))) || !(value_of(fields, 273) matches Some(
            FieldText::Single(_),
        )) || match value_of(fields, 271) {
            Some(FieldText::Single(size)) => i32_value(size) is None,
            _ => true,
        },
    ensures
        trade_entry(fields, px) == Err::<TradeEntry, ParsingFault>(ParsingFault::NotValidVal),
{
}

/// A message with two entries, two sizes, two prices, a date and a time holds
/// the quote of just these, the first for the bid and the second for the offer.
pub proof fn quote_holds_what_was_sent(
    fields: Seq<(u32, FieldText)>,
    entries: Seq<char>,
    sizes: (Seq<char>, Seq<char>),
    volumes: (i32, i32),
    prices: (Price, Price),
    date: Seq<char>,
    time: Seq<char>,
)
    requires
        text_under(fields, 268, entries),
        i32_value(entries) == Some(2i32),
        value_of(fields, 271) == Some(FieldText::Pair(sizes.0, sizes.1)),
        i32_value(sizes.0) == Some(volumes.0),
        i32_value(sizes.1) == Some(volumes.1),
        text_under(fields, 272, date),
        text_under(fields, 273, time),
    ensures
        quote_entry(fields, (Some(prices.0), Some(prices.1))) matches Ok(entry) && entry.bid_price == prices.0
            && entry.ask_price == prices.1 && entry.bid_vol == volumes.0 && entry.ask_vol == volumes.1,
{
}

/// A message with another number of entries than two is no quote, and says how
/// many it has; one without a number of entries, or with a gap, is not valid.
pub proof fn quote_with_a_gap_is_refused(fields: Seq<(u32, FieldText)>, px: (Option<Price>, Option<Price>), n: i32)
    ensures
        ({
            let count = match value_of(fields, 268) {
                Some(FieldText::Single(entries)) => i32_value(entries),
                _ => None,
            };
            let whole = {
                &&& px.0 is Some && px.1 is Some
                &&& match value_of(fields, 271) {
                    Some(FieldText::Pair(bid, ask)) => i32_value(bid) is Some && i32_value(ask) is Some,
                    _ => false,
                }
                &&& value_of(fields, 272) matches Some(FieldText::Single(_))
                &&& value_of(fields, 273) matches Some(FieldText::Single(_))
            };
            &&& count is None ==> quote_entry(fields, px) == Err::<QuoteEntry, ParsingFault>(
                ParsingFault::NotValidVal,
            )
            &&& count == Some(n) && n != 2 ==> quote_entry(fields, px) == Err::<QuoteEntry, ParsingFault>(
                ParsingFault::NotCompleteSnapshot(n),
            )
            &&& count == Some(2i32) && !whole ==> quote_entry(fields, px) == Err::<QuoteEntry, ParsingFault>(
                ParsingFault::NotValidVal,
            )
            &&& count == Some(2i32) && whole ==> quote_entry(fields, px) is Ok
        }),
{
}

/// A message is about the date and the time that it names.
pub proof fn message_is_about_its_date_and_time(fields: Seq<(u32, FieldText)>, date: Seq<char>, time: Seq<char>)
    ensures
        text_under(fields, 272, date) && text_under(fields, 273, time) ==> entry_time(fields) == combined(date, time),
        !(value_of(fields, 272) matches Some(FieldText::Single(_))) || !(value_of(fields, 273) matches Some(
            FieldText::Single(_),
        )) ==> entry_time(fields) is None,
{
}

/// A single entry is a trade, whatever else the message holds, and any other
/// number of entries is a quote; the message is refused where that tick is.
pub proof fn entry_count_tells_trades_from_quotes(fields: Seq<(u32, FieldText)>, prices: Prices)
    ensures
        ({
            let trade = value_of(fields, 268) matches Some(FieldText::Single(entries)) && i32_value(entries) == Some(
                1i32,
            );
            &&& Tick::is_trade(fields) == trade
            &&& Tick::fault(fields, prices) is None <==> (trade && trade_entry(fields, prices.single) is Ok) || (!trade
                && quote_entry(fields, prices.pair) is Ok)
            &&& trade ==> (trade_entry(fields, prices.single) matches Err(fault) ==> Tick::fault(fields, prices)
                == Some(fault))
            &&& !trade ==> (quote_entry(fields, prices.pair) matches Err(fault) ==> Tick::fault(fields, prices)
                == Some(fault))
            &&& Tick::readable(fields, prices) <==> Tick::fault(fields, prices) is Some || entry_time(fields) is Some
        }),
{
}

/// A tick is of its message's symbol and time, and its values are those that the
/// message says.
pub proof fn tick_says_what_its_message_says(
    tick: Tick,
    fields: Seq<(u32, FieldText)>,
    symbol: Seq<char>,
    prices: Prices,
    time: Option<Timestamp>,
)
    requires
        tick.held_by(fields, symbol, prices, time),
    ensures
        Tick::fault(fields, prices) is None,
        match tick {
            Tick::Trade(trade) => {
                &&& Some(trade.receive_time) == time
                &&& trade.ticker_name@ == symbol
                &&& Some(trade.trade_px) == prices.single
                &&& value_of(fields, 268) matches Some(FieldText::Single(entries))
                &&& i32_value(entries) == Some(1i32)
                &&& value_of(fields, 271) matches Some(FieldText::Single(size))
                &&& i32_value(size) matches Some(volume)
                &&& (trade.trade_vol - volume) % 0x1_0000_0000 == 0
                &&& match value_of(fields, 828) {
                    Some(FieldText::Single(kind)) => match i32_value(kind) {
                        Some(n) => trade.trd_type matches Some(t) && (t - n) % 0x100 == 0,
                        None => trade.trd_type is None,
                    },
                    _ => trade.trd_type is None,
                }
            },
            Tick::Quote(quote) => {
                &&& Some(quote.receive_time) == time
                &&& quote.ticker_name@ == symbol
                &&& (Some(quote.bid_price), Some(quote.ask_price)) == prices.pair
                &&& value_of(fields, 268) matches Some(FieldText::Single(entries))
                &&& i32_value(entries) == Some(2i32)
                &&& value_of(fields, 271) matches Some(FieldText::Pair(bid, ask))
                &&& i32_value(bid) matches Some(bid_volume)
                &&& i32_value(ask) matches Some(ask_volume)
                &&& (quote.bid_vol - bid_volume) % 0x1_0000_0000 == 0
                &&& (quote.ask_vol - ask_volume) % 0x1_0000_0000 == 0
            },
        },
{
}

/// A trade and a quote on their own are held by a message under the same
/// conditions as the tick that they are.
pub proof fn ticks_are_their_trades_and_quotes(
    trade: Trade,
    quote: Quote,
    fields: Seq<(u32, FieldText)>,
    symbol: Seq<char>,
    prices: Prices,
    time: Option<Timestamp>,
)
    ensures
        Tick::is_trade(fields) ==> (Tick::Trade(trade).held_by(fields, symbol, prices, time) <==> trade.held_by(
            fields,
            symbol,
            prices.single,
            time,
        )) && !Tick::Quote(quote).held_by(fields, symbol, prices, time),
        !Tick::is_trade(fields) ==> (Tick::Quote(quote).held_by(fields, symbol, prices, time) <==> quote.held_by(
            fields,
            symbol,
            prices.pair,
            time,
        )) && !Tick::Trade(trade).held_by(fields, symbol, prices, time),
        Trade::readable(fields, prices.single) <==> trade_entry(fields, prices.single) is Err || entry_time(fields)
            is Some,
        Quote::readable(fields, prices.pair) <==> quote_entry(fields, prices.pair) is Err || entry_time(fields)
            is Some,
{
}

} // verus!
