//! Market data, resolved from messages.
use std::sync::Arc;
use vstd::prelude::*;
use vstd::utf8::*;

use crate::errors::{ParsingError, ParsingFault};
use crate::fix::codec::announces_trade;
use crate::fix::raw_msg::{int_of, pair_int_of, single_of, FieldText, RawMessage};
use crate::fix::tag;
use crate::text::{i32_value, is_digit};
use crate::utils::times::{combine_date_time, combined, try_combine_date_time, Timestamp};

verus! {

/// A single-precision price, by its bit pattern.
#[derive(Debug, Clone, Copy, PartialEq, Eq, Structural)]
pub struct Price {
    pub bits: u32,
}

/// What the prices of a message read as numbers are: MDEntryPx as a single
/// text, and as a pair of texts. `None` stands for a text that is no number, or
/// is not there.
#[derive(Debug, Clone, Copy)]
pub struct Prices {
    pub single: Option<Price>,
    pub pair: (Option<Price>, Option<Price>),
}

/// The best bid and the best offer.
#[derive(Debug)]
pub struct Quote {
    pub receive_time: Timestamp,
    pub ticker_name: Arc<str>,
    pub bid_price: Price,
    pub bid_vol: u32,
    pub ask_price: Price,
    pub ask_vol: u32,
}

/// A trade.
#[derive(Debug)]
pub struct Trade {
    pub receive_time: Timestamp,
    pub ticker_name: Arc<str>,
    pub trade_px: Price,
    pub trade_vol: u32,
    pub trd_type: Option<u8>,
}

/// The two sides of the book.
#[derive(Debug, Clone, Copy)]
pub enum Side {
    BUY,
    SELL,
}

/// A single decoded market-data update, resolved from a raw FIX message into
/// whichever domain shape it actually is.
#[derive(Debug)]
pub enum Tick {
    Quote(Quote),
    Trade(Trade),
}

impl Clone for Quote {
    fn clone(&self) -> (r: Self)
        ensures
            r == *self,
    {
        Quote {
            receive_time: self.receive_time,
            ticker_name: self.ticker_name.clone(),
            bid_price: self.bid_price,
            bid_vol: self.bid_vol,
            ask_price: self.ask_price,
            ask_vol: self.ask_vol,
        }
    }
}

impl Clone for Trade {
    fn clone(&self) -> (r: Self)
        ensures
            r == *self,
    {
        Trade {
            receive_time: self.receive_time,
            ticker_name: self.ticker_name.clone(),
            trade_px: self.trade_px,
            trade_vol: self.trade_vol,
            trd_type: self.trd_type,
        }
    }
}

impl Clone for Tick {
    fn clone(&self) -> (r: Self)
        ensures
            r == *self,
    {
        match self {
            Tick::Quote(quote) => Tick::Quote(quote.clone()),
            Tick::Trade(trade) => Tick::Trade(trade.clone()),
        }
    }
}

/// A signed number as 32 unsigned bits: a negative number wraps around.
pub open spec fn wrapped_u32(n: i32) -> int {
    if n < 0 {
        n + 0x1_0000_0000
    } else {
        n as int
    }
}

/// The lowest eight bits of a signed number.
pub open spec fn wrapped_u8(n: i32) -> int {
    n as int % 256
}

fn wrap_u32(n: i32) -> (r: u32)
    ensures
        r == wrapped_u32(n),
{
    if n < 0 {
        (n as i64 + 0x1_0000_0000) as u32
    } else {
        n as u32
    }
}

fn wrap_u8(n: i32) -> (r: u8)
    ensures
        r == wrapped_u8(n),
{
    ((n as i64 + 0x1_0000_0000) % 256) as u8
}

/// The contents of a quote message.
pub struct QuoteEntry {
    pub bid_price: Price,
    pub bid_vol: i32,
    pub ask_price: Price,
    pub ask_vol: i32,
}

/// The contents of a quote message: two entries, both prices and both sizes as
/// numbers, a date and a time. What is missing first decides the error.
pub open spec fn quote_entry(fields: Seq<(u32, FieldText)>, px: (Option<Price>, Option<Price>)) -> Result<
    QuoteEntry,
    ParsingFault,
> {
    match int_of(fields, tag::MD_ENTRY_NO) {
        None => Err(ParsingFault::NotValidVal),
        Some(entries) => if entries != 2 {
            Err(ParsingFault::NotCompleteSnapshot(entries))
        } else {
            match (
                px,
                pair_int_of(fields, tag::MD_ENTRY_SIZE),
                single_of(fields, tag::MD_ENTRY_DATE),
                single_of(fields, tag::MD_ENTRY_TIME),
            ) {
                ((Some(bid_price), Some(ask_price)), (Some(bid_vol), Some(ask_vol)), Some(_), Some(_)) => Ok(
                    QuoteEntry { bid_price, bid_vol, ask_price, ask_vol },
                ),
                _ => Err(ParsingFault::NotValidVal),
            }
        },
    }
}

/// The contents of a trade message.
pub struct TradeEntry {
    pub trade_px: Price,
    pub trade_vol: i32,
    pub trd_type: Option<i32>,
}

/// The contents of a trade message: its size and its price as numbers, a date, a
/// time, and a trade type if it has one.
pub open spec fn trade_entry(fields: Seq<(u32, FieldText)>, px: Option<Price>) -> Result<TradeEntry, ParsingFault> {
    match (
        int_of(fields, tag::MD_ENTRY_SIZE),
        px,
        single_of(fields, tag::MD_ENTRY_DATE),
        single_of(fields, tag::MD_ENTRY_TIME),
    ) {
        (Some(trade_vol), Some(trade_px), Some(_), Some(_)) => Ok(
            TradeEntry { trade_px, trade_vol, trd_type: int_of(fields, tag::TRADE_TYPE) },
        ),
        _ => Err(ParsingFault::NotValidVal),
    }
}

/// The point in time that a message is about, where it holds a date and a time
/// and both are well-formed.
pub open spec fn entry_time(fields: Seq<(u32, FieldText)>) -> Option<Timestamp> {
    match (single_of(fields, tag::MD_ENTRY_DATE), single_of(fields, tag::MD_ENTRY_TIME)) {
        (Some(date), Some(time)) => combined(date, time),
        _ => None,
    }
}

/// The point in time that a message is about.
pub fn extract_entry_time(raw_msg: &RawMessage) -> (r: Option<Timestamp>)
    ensures
        r == entry_time(raw_msg@),
        r matches Some(time) ==> time.wf(),
{
    match (raw_msg.single_text(tag::MD_ENTRY_DATE), raw_msg.single_text(tag::MD_ENTRY_TIME)) {
        (Some(date), Some(time)) => try_combine_date_time(date, time),
        _ => None,
    }
}

impl QuoteEntry {
    /// Reads the contents of a quote message.
    pub fn read(raw_msg: &RawMessage, px: (Option<Price>, Option<Price>)) -> (r: Result<Self, ParsingError>)
        ensures
            match r {
                Ok(entry) => quote_entry(raw_msg@, px) == Ok::<QuoteEntry, ParsingFault>(entry),
                Err(e) => quote_entry(raw_msg@, px) == Err::<QuoteEntry, ParsingFault>(e@),
            },
    {
        let entries: i32 = match raw_msg.get_int(tag::MD_ENTRY_NO) {
            Some(entries) => entries,
            None => {
                return Err(ParsingError::NotValidVal);
            },
        };
        if entries != 2 {
            return Err(ParsingError::NotCompleteSnapshot(entries));
        }
        let (bid_price, ask_price) = match px {
            (Some(bid_price), Some(ask_price)) => (bid_price, ask_price),
            _ => {
                return Err(ParsingError::NotValidVal);
            },
        };
        let (bid_vol, ask_vol) = match raw_msg.get_pair_int(tag::MD_ENTRY_SIZE) {
            (Some(bid_vol), Some(ask_vol)) => (bid_vol, ask_vol),
            _ => {
                return Err(ParsingError::NotValidVal);
            },
        };
        if raw_msg.single_text(tag::MD_ENTRY_DATE).is_none() || raw_msg.single_text(tag::MD_ENTRY_TIME).is_none() {
            return Err(ParsingError::NotValidVal);
        }
        Ok(QuoteEntry { bid_price, bid_vol, ask_price, ask_vol })
    }

    /// The quote that an entry becomes.
    pub fn quote(self, symbol: Arc<str>, time: Timestamp) -> (quote: Quote)
        requires
            time.wf(),
        ensures
            self.gives(symbol@, time, quote),
    {
        Quote {
            receive_time: time,
            ticker_name: symbol,
            bid_price: self.bid_price,
            bid_vol: wrap_u32(self.bid_vol),
            ask_price: self.ask_price,
            ask_vol: wrap_u32(self.ask_vol),
        }
    }

    /// Whether a quote is what an entry becomes.
    pub open spec fn gives(self, symbol: Seq<char>, time: Timestamp, quote: Quote) -> bool {
        &&& quote.receive_time == time
        &&& quote.receive_time.wf()
        &&& quote.ticker_name@ == symbol
        &&& quote.bid_price == self.bid_price
        &&& quote.bid_vol == wrapped_u32(self.bid_vol)
        &&& quote.ask_price == self.ask_price
        &&& quote.ask_vol == wrapped_u32(self.ask_vol)
    }
}

impl TradeEntry {
    /// Reads the contents of a trade message.
    pub fn read(raw_msg: &RawMessage, px: Option<Price>) -> (r: Result<Self, ParsingError>)
        ensures
            match r {
                Ok(entry) => trade_entry(raw_msg@, px) == Ok::<TradeEntry, ParsingFault>(entry),
                Err(e) => trade_entry(raw_msg@, px) == Err::<TradeEntry, ParsingFault>(e@),
            },
    {
        let trade_vol: i32 = match raw_msg.get_int(tag::MD_ENTRY_SIZE) {
            Some(trade_vol) => trade_vol,
            None => {
                return Err(ParsingError::NotValidVal);
            },
        };
        let trade_px: Price = match px {
            Some(trade_px) => trade_px,
            None => {
                return Err(ParsingError::NotValidVal);
            },
        };
        if raw_msg.single_text(tag::MD_ENTRY_DATE).is_none() || raw_msg.single_text(tag::MD_ENTRY_TIME).is_none() {
            return Err(ParsingError::NotValidVal);
        }
        Ok(TradeEntry { trade_px, trade_vol, trd_type: raw_msg.get_int(tag::TRADE_TYPE) })
    }

    /// The trade that an entry becomes.
    pub fn trade(self, symbol: Arc<str>, time: Timestamp) -> (trade: Trade)
        requires
            time.wf(),
        ensures
            self.gives(symbol@, time, trade),
    {
        let trd_type: Option<u8> = match self.trd_type {
            Some(n) => Some(wrap_u8(n)),
            None => None,
        };
        Trade {
            receive_time: time,
            ticker_name: symbol,
            trade_px: self.trade_px,
            trade_vol: wrap_u32(self.trade_vol),
            trd_type,
        }
    }

    /// Whether a trade is what an entry becomes.
    pub open spec fn gives(self, symbol: Seq<char>, time: Timestamp, trade: Trade) -> bool {
        &&& trade.receive_time == time
        &&& trade.receive_time.wf()
        &&& trade.ticker_name@ == symbol
        &&& trade.trade_px == self.trade_px
        &&& trade.trade_vol == wrapped_u32(self.trade_vol)
        &&& match self.trd_type {
            Some(n) => trade.trd_type matches Some(t) && t == wrapped_u8(n),
            None => trade.trd_type is None,
        }
    }
}

/// Whether a point in time, where there is one, is one of the calendar.
pub open spec fn time_wf(time: Option<Timestamp>) -> bool {
    time matches Some(t) ==> t.wf()
}

impl Quote {
    /// The quote that a message holds, where the message is about `time`. `None`
    /// where it would be a quote but for the time.
    pub fn resolve(
        raw_msg: &RawMessage,
        symbol: Arc<str>,
        px: (Option<Price>, Option<Price>),
        time: Option<Timestamp>,
    ) -> (r: Option<Result<Self, ParsingError>>)
        requires
            time_wf(time),
        ensures
            match r {
                None => quote_entry(raw_msg@, px) is Ok && time is None,
                Some(Ok(quote)) => {
                    &&& quote_entry(raw_msg@, px) matches Ok(entry)
                    &&& time matches Some(t)
                    &&& entry.gives(symbol@, t, quote)
                },
                Some(Err(e)) => quote_entry(raw_msg@, px) == Err::<QuoteEntry, ParsingFault>(e@),
            },
    {
        match QuoteEntry::read(raw_msg, px) {
            Err(e) => Some(Err(e)),
            Ok(entry) => match time {
                Some(receive_time) => Some(Ok(entry.quote(symbol, receive_time))),
                None => None,
            },
        }
    }

    /// Whether the date and the time of a message that is otherwise a quote can
    /// be read.
    pub open spec fn readable(fields: Seq<(u32, FieldText)>, px: (Option<Price>, Option<Price>)) -> bool {
        quote_entry(fields, px) is Ok ==> entry_time(fields) is Some
    }

    /// Whether `quote` is what a message holds.
    pub open spec fn held_by(
        self,
        fields: Seq<(u32, FieldText)>,
        symbol: Seq<char>,
        px: (Option<Price>, Option<Price>),
        time: Option<Timestamp>,
    ) -> bool {
        &&& quote_entry(fields, px) matches Ok(entry)
        &&& time matches Some(t)
        &&& entry.gives(symbol, t, self)
    }

    /// The quote that a message holds, or `None` where its date or its time is
    /// malformed.
    pub fn try_from_raw(raw_msg: RawMessage, symbol: Arc<str>, px: (Option<Price>, Option<Price>)) -> (r: Option<
        Result<Self, ParsingError>,
    >)
        ensures
            match r {
                None => !Self::readable(raw_msg@, px),
                Some(Ok(quote)) => quote.held_by(raw_msg@, symbol@, px, entry_time(raw_msg@)),
                Some(Err(e)) => quote_entry(raw_msg@, px) == Err::<QuoteEntry, ParsingFault>(e@),
            },
    {
        if extract_entry_time(&raw_msg).is_none() {
            return Self::resolve(&raw_msg, symbol, px, None);
        }
        Some(Self::from_raw(raw_msg, symbol, px))
    }

    /// The quote that a message holds, where its date and its time are
    /// well-formed.
    pub fn from_raw(raw_msg: RawMessage, symbol: Arc<str>, px: (Option<Price>, Option<Price>)) -> (r: Result<
        Self,
        ParsingError,
    >)
        requires
            Self::readable(raw_msg@, px),
        ensures
            match r {
                Ok(quote) => quote.held_by(raw_msg@, symbol@, px, entry_time(raw_msg@)),
                Err(e) => quote_entry(raw_msg@, px) == Err::<QuoteEntry, ParsingFault>(e@),
            },
    {
        match QuoteEntry::read(&raw_msg, px) {
            Ok(entry) => {
                let date: &str = raw_msg.single_text(tag::MD_ENTRY_DATE).unwrap();
                let time: &str = raw_msg.single_text(tag::MD_ENTRY_TIME).unwrap();
                Ok(entry.quote(symbol, combine_date_time(date, time)))
            },
            Err(e) => Err(e),
        }
    }
}

impl Trade {
    /// The trade that a message holds, where the message is about `time`. `None`
    /// where it would be a trade but for the time.
    pub fn resolve(raw_msg: &RawMessage, symbol: Arc<str>, px: Option<Price>, time: Option<Timestamp>) -> (r: Option<
        Result<Self, ParsingError>,
    >)
        requires
            time_wf(time),
        ensures
            match r {
                None => trade_entry(raw_msg@, px) is Ok && time is None,
                Some(Ok(trade)) => {
                    &&& trade_entry(raw_msg@, px) matches Ok(entry)
                    &&& time matches Some(t)
                    &&& entry.gives(symbol@, t, trade)
                },
                Some(Err(e)) => trade_entry(raw_msg@, px) == Err::<TradeEntry, ParsingFault>(e@),
            },
    {
        match TradeEntry::read(raw_msg, px) {
            Err(e) => Some(Err(e)),
            Ok(entry) => match time {
                Some(receive_time) => Some(Ok(entry.trade(symbol, receive_time))),
                None => None,
            },
        }
    }

    /// Whether the date and the time of a message that is otherwise a trade can
    /// be read.
    pub open spec fn readable(fields: Seq<(u32, FieldText)>, px: Option<Price>) -> bool {
        trade_entry(fields, px) is Ok ==> entry_time(fields) is Some
    }

    /// Whether `trade` is what a message holds.
    pub open spec fn held_by(
        self,
        fields: Seq<(u32, FieldText)>,
        symbol: Seq<char>,
        px: Option<Price>,
        time: Option<Timestamp>,
    ) -> bool {
        &&& trade_entry(fields, px) matches Ok(entry)
        &&& time matches Some(t)
        &&& entry.gives(symbol, t, self)
    }

    /// The trade that a message holds, or `None` where its date or its time is
    /// malformed.
    pub fn try_from_raw(raw_msg: RawMessage, symbol: Arc<str>, px: Option<Price>) -> (r: Option<
        Result<Self, ParsingError>,
    >)
        ensures
            match r {
                None => !Self::readable(raw_msg@, px),
                Some(Ok(trade)) => trade.held_by(raw_msg@, symbol@, px, entry_time(raw_msg@)),
                Some(Err(e)) => trade_entry(raw_msg@, px) == Err::<TradeEntry, ParsingFault>(e@),
            },
    {
        if extract_entry_time(&raw_msg).is_none() {
            return Self::resolve(&raw_msg, symbol, px, None);
        }
        Some(Self::from_raw(raw_msg, symbol, px))
    }

    /// The trade that a message holds, where its date and its time are
    /// well-formed.
    pub fn from_raw(raw_msg: RawMessage, symbol: Arc<str>, px: Option<Price>) -> (r: Result<Self, ParsingError>)
        requires
            Self::readable(raw_msg@, px),
        ensures
            match r {
                Ok(trade) => trade.held_by(raw_msg@, symbol@, px, entry_time(raw_msg@)),
                Err(e) => trade_entry(raw_msg@, px) == Err::<TradeEntry, ParsingFault>(e@),
            },
    {
        match TradeEntry::read(&raw_msg, px) {
            Ok(entry) => {
                let date: &str = raw_msg.single_text(tag::MD_ENTRY_DATE).unwrap();
                let time: &str = raw_msg.single_text(tag::MD_ENTRY_TIME).unwrap();
                Ok(entry.trade(symbol, combine_date_time(date, time)))
            },
            Err(e) => Err(e),
        }
    }
}

impl Tick {
    /// Whether a message holds a trade: its MDEntryNo is one.
    pub open spec fn is_trade(fields: Seq<(u32, FieldText)>) -> bool {
        int_of(fields, tag::MD_ENTRY_NO) == Some(1i32)
    }

    /// The error of a message that holds no tick.
    pub open spec fn fault(fields: Seq<(u32, FieldText)>, prices: Prices) -> Option<ParsingFault> {
        if Self::is_trade(fields) {
            match trade_entry(fields, prices.single) {
                Ok(_) => None,
                Err(fault) => Some(fault),
            }
        } else {
            match quote_entry(fields, prices.pair) {
                Ok(_) => None,
                Err(fault) => Some(fault),
            }
        }
    }

    /// Whether the date and the time of a message that is otherwise a tick can
    /// be read.
    pub open spec fn readable(fields: Seq<(u32, FieldText)>, prices: Prices) -> bool {
        Self::fault(fields, prices) is None ==> entry_time(fields) is Some
    }

    /// Whether `tick` is what a message holds, where the message is about `time`.
    pub open spec fn held_by(
        self,
        fields: Seq<(u32, FieldText)>,
        symbol: Seq<char>,
        prices: Prices,
        time: Option<Timestamp>,
    ) -> bool {
        match self {
            Tick::Trade(trade) => Self::is_trade(fields) && trade.held_by(fields, symbol, prices.single, time),
            Tick::Quote(quote) => !Self::is_trade(fields) && quote.held_by(fields, symbol, prices.pair, time),
        }
    }

    /// The tick that a message holds, where the message is about `time`. `None`
    /// where it would be a tick but for the time.
    pub fn resolve(raw_msg: &RawMessage, symbol: Arc<str>, prices: Prices, time: Option<Timestamp>) -> (r: Option<
        Result<Self, ParsingError>,
    >)
        requires
            time_wf(time),
        ensures
            match r {
                None => Self::fault(raw_msg@, prices) is None && time is None,
                Some(Ok(tick)) => tick.held_by(raw_msg@, symbol@, prices, time),
                Some(Err(e)) => Self::fault(raw_msg@, prices) == Some(e@),
            },
    {
        match raw_msg.get_int(tag::MD_ENTRY_NO) {
            Some(1) => match Trade::resolve(raw_msg, symbol, prices.single, time) {
                Some(Ok(trade)) => Some(Ok(Tick::Trade(trade))),
                Some(Err(e)) => Some(Err(e)),
                None => None,
            },
            _ => match Quote::resolve(raw_msg, symbol, prices.pair, time) {
                Some(Ok(quote)) => Some(Ok(Tick::Quote(quote))),
                Some(Err(e)) => Some(Err(e)),
                None => None,
            },
        }
    }

    /// The tick that a message holds, or `None` where its date or its time is
    /// malformed.
    pub fn try_from_raw(raw_msg: RawMessage, symbol: Arc<str>, prices: Prices) -> (r: Option<
        Result<Self, ParsingError>,
    >)
        ensures
            match r {
                None => !Self::readable(raw_msg@, prices),
                Some(Ok(tick)) => tick.held_by(raw_msg@, symbol@, prices, entry_time(raw_msg@)),
                Some(Err(e)) => Self::fault(raw_msg@, prices) == Some(e@),
            },
    {
        if extract_entry_time(&raw_msg).is_none() {
            return Self::resolve(&raw_msg, symbol, prices, None);
        }
        Some(Self::from_raw(raw_msg, symbol, prices))
    }

    /// The tick that a message holds, where its date and its time are
    /// well-formed.
    ///
    /// Mirrors `FixCodec::decode`'s own convention for MDEntryNo(268): a value
    /// of `1` means a single Trade entry, anything else means a Bid/Offer Quote
    /// pair.
    pub fn from_raw(raw_msg: RawMessage, symbol: Arc<str>, prices: Prices) -> (r: Result<Self, ParsingError>)
        requires
            Self::readable(raw_msg@, prices),
        ensures
            match r {
                Ok(tick) => tick.held_by(raw_msg@, symbol@, prices, entry_time(raw_msg@)),
                Err(e) => Self::fault(raw_msg@, prices) == Some(e@),
            },
    {
        match raw_msg.get_int(tag::MD_ENTRY_NO) {
            Some(1) => match Trade::from_raw(raw_msg, symbol, prices.single) {
                Ok(trade) => Ok(Tick::Trade(trade)),
                Err(e) => Err(e),
            },
            _ => match Quote::from_raw(raw_msg, symbol, prices.pair) {
                Ok(quote) => Ok(Tick::Quote(quote)),
                Err(e) => Err(e),
            },
        }
    }
}

/// The codec and the tick types go by one convention: an MDEntryNo that the
/// codec takes to announce a trade is one that resolves to a trade. The one
/// difference is a leading plus sign, which only the latter reads.
pub proof fn trade_convention_is_shared(entry_no: Seq<char>)
    requires
        encode_utf8(entry_no).len() > 0 ==> encode_utf8(entry_no)[0] != 43,
    ensures
        announces_trade(encode_utf8(entry_no)) <==> i32_value(entry_no) == Some(1i32),
{
    let bytes = encode_utf8(entry_no);
    if bytes.len() > 0 && bytes[0] == 45 {
        assert(!is_digit(bytes[0]));
    }
}

} // verus!
