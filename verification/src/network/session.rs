//! The state of a session with the exchange, and how it reacts to what the
//! exchange sends.
use std::sync::Arc;

use bytes::BytesMut;
use vstd::prelude::*;
use vstd::utf8::*;

use crate::buffer::{buffer_bytes, buffer_slice};
use crate::config::LogOnConfig;
use crate::errors::{LoadFault, ParsingError, ParsingFault};
use crate::fix::codec::{announces_trade, body_bytes, decoded, has_pair, wire_bytes, FixCodec};
use crate::fix::messages;
use crate::fix::messages::{
    heartbeat_fields, logon_fields, market_data_request_fields, seq_number_reset_fields,
};
use crate::fix::parser::{field_at, parser_stays_in_the_buffer};
use crate::fix::raw_msg::{
    pair_int_of, single_of, value_from, value_of, FieldText, RawMessage, ValType,
};
use crate::fix::roundtrip::{
    body_fields, last_single, market_data, no_entry_no, only_entry_fields, preamble_fields,
    quote_message, session_trailer, writable, written_quote_keeps_its_sides,
    written_session_message_is_read_back, written_trade_is_read_back,
};
use crate::fix::tag;
use crate::fix::tag::msg_type;
use crate::network::framing::{
    arrived_message_stays_the_same, extract_message, frame, written_message_is_extracted,
};
use crate::text::{digits_value, i32_value, text_eq};
use crate::types::{entry_time, extract_entry_time, time_wf, trade_entry, Price, Prices, Tick};
use crate::utils::caster::{can_parse_uint, is_uint, parse_uint};
use crate::utils::symbol::SymbolInitilizer;
use crate::utils::times::Timestamp;

verus! {

/// The next sequence numbers of the two directions of a session.
#[derive(Debug)]
pub struct SeqPair {
    pub outbound_seq: u32,
    pub inbound_seq: u32,
}

/// Why a session ends.
#[derive(Debug, Clone, Copy, PartialEq, Eq, Structural)]
pub enum StopReason {
    /// A resend request holds a pair in place of a sequence number.
    BeginSeqNotSingle,
    /// A resend request holds no sequence number.
    BeginSeqMissing,
    /// The exchange logged us out.
    Logout,
}

impl StopReason {
    /// The readable message.
    pub open spec fn message(self) -> Seq<char> {
        match self {
            StopReason::BeginSeqNotSingle => "Does not receive begin seq no on resend request"@,
            StopReason::BeginSeqMissing => "Receive invalid begin seq no on resend request"@,
            StopReason::Logout => "exchange sent Logout, ending session"@,
        }
    }

    /// The readable message.
    pub fn to_string(&self) -> (r: String)
        ensures
            r@ == self.message(),
    {
        match self {
            StopReason::BeginSeqNotSingle => "Does not receive begin seq no on resend request".to_owned(),
            StopReason::BeginSeqMissing => "Receive invalid begin seq no on resend request".to_owned(),
            StopReason::Logout => "exchange sent Logout, ending session".to_owned(),
        }
    }
}

/// What a session does about a message.
#[derive(Debug)]
pub enum Reaction {
    /// Send this message.
    Send(RawMessage),
    /// Hand this tick to whoever listens.
    Forward(Tick),
    /// Do nothing.
    Ignore,
    /// End the session.
    Stop(StopReason),
}

/// What a message asks of a session.
pub enum Duty {
    /// Answer with a heartbeat that carries this id.
    Heartbeat(Option<Seq<char>>),
    /// Forward the tick of this symbol.
    Forward(Seq<char>),
    /// Fill the gap from the sequence number that this text denotes.
    FillGap(Seq<char>),
    /// End the session.
    Stop(StopReason),
    /// Nothing.
    Nothing,
}

/// What a message asks of a session.
pub open spec fn duty(fields: Seq<(u32, FieldText)>) -> Duty {
    match single_of(fields, tag::MSG_TYPE) {
        None => Duty::Nothing,
        Some(tp) => if tp == msg_type::TEST_REQUEST@ {
            Duty::Heartbeat(single_of(fields, tag::TEST_REQ_ID))
        } else if tp == msg_type::MARKET_DATA_SNAPSHOT_FULL_REFRESH@ || tp
            == msg_type::MARKET_DATA_INCREMENTAL_REFRESH@ {
            match single_of(fields, tag::SYMBOL) {
                Some(symbol) => Duty::Forward(symbol),
                None => Duty::Nothing,
            }
        } else if tp == msg_type::RESEND_REQUEST@ {
            match value_of(fields, tag::BEGIN_SEQ) {
                Some(FieldText::Single(begin)) => Duty::FillGap(begin),
                Some(FieldText::Pair(_, _)) => Duty::Stop(StopReason::BeginSeqNotSingle),
                None => Duty::Stop(StopReason::BeginSeqMissing),
            }
        } else if tp == msg_type::LOGOUT@ {
            Duty::Stop(StopReason::Logout)
        } else {
            Duty::Nothing
        },
    }
}

/// The first message of a stream that can be decoded, and what follows it.
/// Messages that cannot be decoded are passed over. Where no complete message
/// follows, the stream is left as it is from there on.
pub open spec fn next_message_of(data: Seq<u8>) -> (Option<Seq<(u32, FieldText)>>, Seq<u8>)
    decreases data.len(),
{
    match frame(data) {
        Ok(Some(len)) => if 0 < len <= data.len() {
            match decoded(data.take(len)) {
                Ok(fields) => (Some(fields), data.skip(len)),
                Err(_) => next_message_of(data.skip(len)),
            }
        } else {
            (None, data)
        },
        _ => (None, data),
    }
}

/// The state of a session.
pub struct Session {
    pub config: LogOnConfig,
    /// The sequence number of the last message sent.
    pub seq: u32,
    /// The symbols seen so far.
    pub cache: SymbolInitilizer,
    /// What has arrived and was not taken out yet.
    pub buf: BytesMut,
}

proof fn lemma_frame_positive(data: Seq<u8>)
    ensures
        frame(data) matches Ok(Some(len)) ==> 0 < len <= data.len(),
{
    parser_stays_in_the_buffer(data, 0);
    parser_stays_in_the_buffer(data, field_at(data, 0).0);
}

/// A message in its wire format.
pub fn to_wire(msg: RawMessage) -> (r: Result<BytesMut, ParsingError>)
    requires
        wire_bytes(msg@).len() <= isize::MAX,
    ensures
        match r {
            Ok(wire) => !has_pair(msg@) && buffer_bytes(wire) == wire_bytes(msg@),
            Err(e) => has_pair(msg@) && e@ == ParsingFault::FailToLoad(LoadFault::PairValue),
        },
{
    let mut codec: FixCodec = FixCodec;
    let mut dst: BytesMut = BytesMut::new();
    let ghost fields = msg@;
    match codec.encode(msg, &mut dst) {
        Ok(()) => {
            assert(buffer_bytes(dst) =~= wire_bytes(fields));
            Ok(dst)
        },
        Err(e) => Err(e),
    }
}

impl Session {
    /// The symbols are held once each.
    pub open spec fn wf(&self) -> bool {
        self.cache.wf()
    }

    /// Whether the session can react to a message: a reply needs a sequence
    /// number past the last one, and a resend request a number to start from.
    pub open spec fn ready_for(&self, fields: Seq<(u32, FieldText)>) -> bool {
        match duty(fields) {
            Duty::Heartbeat(_) => self.seq < u32::MAX,
            Duty::FillGap(begin) => self.seq < u32::MAX && is_uint(encode_utf8(begin)),
            _ => true,
        }
    }

    /// A session that has just connected, and the two messages that open it: a
    /// logon, and a subscription to `symbols`.
    pub fn start(config: LogOnConfig, symbols: &[String], logon_time: &str, request_time: &str) -> (r: (
        Self,
        RawMessage,
        RawMessage,
    ))
        ensures
            r.0.wf(),
            r.0.config == config,
            r.0.seq == 2,
            r.0.cache@ == Seq::<Seq<char>>::empty(),
            buffer_bytes(r.0.buf) == Seq::<u8>::empty(),
            r.1@ == logon_fields(1, config, logon_time@),
            r.2@ == market_data_request_fields(2, config, request_time@, "mdr-1"@, symbols@),
    {
        let logon: RawMessage = messages::logon(1, &config, logon_time);
        let request: RawMessage = messages::market_data_request(2, &config, request_time, "mdr-1", symbols);
        let session = Session { config, seq: 2, cache: SymbolInitilizer::default(), buf: BytesMut::new() };
        (session, logon, request)
    }

    /// Takes up bytes that have arrived.
    pub fn on_read(&mut self, chunk: &[u8])
        requires
            old(self).wf(),
            buffer_bytes(old(self).buf).len() + chunk@.len() <= isize::MAX,
        ensures
            final(self).wf(),
            buffer_bytes(final(self).buf) == buffer_bytes(old(self).buf) + chunk@,
            final(self).config == old(self).config,
            final(self).seq == old(self).seq,
            final(self).cache == old(self).cache,
    {
        self.buf.extend_from_slice(chunk);
    }

    /// Whether the buffer can take up `n` more bytes.
    pub fn can_read(&self, n: usize) -> (r: bool)
        ensures
            r == (buffer_bytes(self.buf).len() + n <= isize::MAX),
    {
        let held: usize = buffer_slice(&self.buf).len();
        let limit: usize = isize::MAX as usize;
        held <= limit && n <= limit - held
    }

    /// Takes up bytes that have arrived, where the buffer can take them up, and
    /// says whether it could.
    pub fn try_read(&mut self, chunk: &[u8]) -> (r: bool)
        requires
            old(self).wf(),
        ensures
            final(self).wf(),
            r == (buffer_bytes(old(self).buf).len() + chunk@.len() <= isize::MAX),
            buffer_bytes(final(self).buf) == (if r {
                buffer_bytes(old(self).buf) + chunk@
            } else {
                buffer_bytes(old(self).buf)
            }),
            final(self).config == old(self).config,
            final(self).seq == old(self).seq,
            final(self).cache == old(self).cache,
    {
        if self.can_read(chunk.len()) {
            self.on_read(chunk);
            true
        } else {
            false
        }
    }

    /// The next message that has arrived in full and can be decoded. A malformed
    /// message is skipped, and the session goes on.
    pub fn next_message(&mut self) -> (r: Option<RawMessage>)
        requires
            old(self).wf(),
        ensures
            final(self).wf(),
            match r {
                Some(msg) => next_message_of(buffer_bytes(old(self).buf)).0 == Some(msg@),
                None => next_message_of(buffer_bytes(old(self).buf)).0 is None,
            },
            buffer_bytes(final(self).buf) == next_message_of(buffer_bytes(old(self).buf)).1,
            final(self).config == old(self).config,
            final(self).seq == old(self).seq,
            final(self).cache == old(self).cache,
    {
        let mut codec: FixCodec = FixCodec;
        loop
            invariant
                self.wf(),
                next_message_of(buffer_bytes(self.buf)) == next_message_of(buffer_bytes(old(self).buf)),
                self.config == old(self).config,
                self.seq == old(self).seq,
                self.cache == old(self).cache,
            decreases buffer_bytes(self.buf).len(),
        {
            proof {
                lemma_frame_positive(buffer_bytes(self.buf));
            }
            match extract_message(&mut self.buf) {
                Ok(Some(raw_bytes)) => {
                    let mut raw_bytes: BytesMut = raw_bytes;
                    match codec.decode(&mut raw_bytes) {
                        Ok(Some(msg)) => {
                            return Some(msg);
                        },
                        _ => {},
                    }
                },
                _ => {
                    return None;
                },
            }
        }
    }

    /// Whether the session can react to `raw_msg`.
    pub fn can_dispatch(&self, raw_msg: &RawMessage) -> (r: bool)
        ensures
            r == self.ready_for(raw_msg@),
    {
        match raw_msg.get_tp() {
            None => true,
            Some(tp) => {
                if text_eq(tp, msg_type::TEST_REQUEST) {
                    self.seq < u32::MAX
                } else if text_eq(tp, msg_type::MARKET_DATA_SNAPSHOT_FULL_REFRESH) || text_eq(
                    tp,
                    msg_type::MARKET_DATA_INCREMENTAL_REFRESH,
                ) {
                    true
                } else if text_eq(tp, msg_type::RESEND_REQUEST) {
                    match raw_msg.get_val(tag::BEGIN_SEQ) {
                        Some(ValType::Single(begin)) => self.seq < u32::MAX && can_parse_uint(
                            begin.as_str().as_bytes(),
                        ),
                        _ => true,
                    }
                } else {
                    true
                }
            },
        }
    }

    /// Whether `reaction` and the session after it are what a message asks of
    /// this session, where the message is about `time`.
    pub open spec fn answers(
        &self,
        fields: Seq<(u32, FieldText)>,
        prices: Prices,
        time: Option<Timestamp>,
        sending_time: Seq<char>,
        after: &Session,
        reaction: Reaction,
    ) -> bool {
        match duty(fields) {
            Duty::Heartbeat(id) => {
                &&& after.seq == self.seq + 1
                &&& after.cache@ == self.cache@
                &&& reaction matches Reaction::Send(msg)
                &&& msg@ == heartbeat_fields(after.seq, self.config, sending_time, id)
            },
            Duty::Forward(symbol) => {
                &&& after.seq == self.seq
                &&& after.cache@ == (if self.cache@.contains(symbol) {
                    self.cache@
                } else {
                    self.cache@.push(symbol)
                })
                &&& if Tick::fault(fields, prices) is None && time is Some {
                    reaction matches Reaction::Forward(tick) && tick.held_by(fields, symbol, prices, time)
                } else {
                    reaction is Ignore
                }
            },
            Duty::FillGap(begin) => {
                &&& after.seq == self.seq + 1
                &&& after.cache@ == self.cache@
                &&& reaction matches Reaction::Send(msg)
                &&& msg@ == seq_number_reset_fields(
                    digits_value(encode_utf8(begin)) as u32,
                    self.config,
                    sending_time,
                    after.seq,
                )
            },
            Duty::Stop(reason) => {
                &&& after.seq == self.seq
                &&& after.cache@ == self.cache@
                &&& reaction == Reaction::Stop(reason)
            },
            Duty::Nothing => {
                &&& after.seq == self.seq
                &&& after.cache@ == self.cache@
                &&& reaction is Ignore
            },
        }
    }

    /// Reacts to one decoded message, as `dispatch` does, where the message is
    /// about `time`.
    pub fn react(&mut self, raw_msg: &RawMessage, prices: Prices, time: Option<Timestamp>, sending_time: &str) -> (r:
        Reaction)
        requires
            old(self).wf(),
            old(self).ready_for(raw_msg@),
            time_wf(time),
        ensures
            final(self).wf(),
            final(self).config == old(self).config,
            buffer_bytes(final(self).buf) == buffer_bytes(old(self).buf),
            old(self).answers(raw_msg@, prices, time, sending_time@, final(self), r),
    {
        let tp: &str = match raw_msg.get_tp() {
            Some(tp) => tp,
            None => {
                return Reaction::Ignore;
            },
        };
        if text_eq(tp, msg_type::TEST_REQUEST) {
            self.seq = self.seq + 1;
            let test_req_id: Option<&str> = raw_msg.single_text(tag::TEST_REQ_ID);
            Reaction::Send(messages::heartbeat(self.seq, &self.config, sending_time, test_req_id))
        } else if text_eq(tp, msg_type::MARKET_DATA_SNAPSHOT_FULL_REFRESH) || text_eq(
            tp,
            msg_type::MARKET_DATA_INCREMENTAL_REFRESH,
        ) {
            let symbol: Arc<str> = match raw_msg.single_text(tag::SYMBOL) {
                Some(symbol) => self.cache.get_val(symbol),
                None => {
                    return Reaction::Ignore;
                },
            };
            match Tick::resolve(raw_msg, symbol, prices, time) {
                Some(Ok(tick)) => Reaction::Forward(tick),
                _ => Reaction::Ignore,
            }
        } else if text_eq(tp, msg_type::RESEND_REQUEST) {
            let start_seq: u32 = match raw_msg.get_val(tag::BEGIN_SEQ) {
                Some(ValType::Single(begin)) => parse_uint(begin.as_str().as_bytes()),
                Some(ValType::Pair(_)) => {
                    return Reaction::Stop(StopReason::BeginSeqNotSingle);
                },
                None => {
                    return Reaction::Stop(StopReason::BeginSeqMissing);
                },
            };
            self.seq = self.seq + 1;
            Reaction::Send(messages::seq_number_reset(start_seq, &self.config, sending_time, self.seq))
        } else if text_eq(tp, msg_type::LOGOUT) {
            Reaction::Stop(StopReason::Logout)
        } else {
            Reaction::Ignore
        }
    }

    /// Reacts to one decoded message: answers session-level control messages,
    /// and forwards market-data ticks. Says `Stop` only when the session should
    /// end (e.g. the exchange logged us out). `prices` are the prices of the
    /// message as numbers; `sending_time` is the time of the reply. A market
    /// data message that holds no tick is ignored.
    pub fn dispatch(&mut self, raw_msg: RawMessage, prices: Prices, sending_time: &str) -> (r: Reaction)
        requires
            old(self).wf(),
            old(self).ready_for(raw_msg@),
        ensures
            final(self).wf(),
            final(self).config == old(self).config,
            buffer_bytes(final(self).buf) == buffer_bytes(old(self).buf),
            old(self).answers(raw_msg@, prices, entry_time(raw_msg@), sending_time@, final(self), r),
    {
        let time: Option<Timestamp> = extract_entry_time(&raw_msg);
        self.react(&raw_msg, prices, time, sending_time)
    }

    /// The heartbeat that is sent on the regular interval.
    pub fn on_heartbeat(&mut self, sending_time: &str) -> (msg: RawMessage)
        requires
            old(self).wf(),
            old(self).seq < u32::MAX,
        ensures
            final(self).wf(),
            final(self).seq == old(self).seq + 1,
            final(self).config == old(self).config,
            final(self).cache == old(self).cache,
            buffer_bytes(final(self).buf) == buffer_bytes(old(self).buf),
            msg@ == heartbeat_fields(final(self).seq, old(self).config, sending_time@, None),
    {
        self.seq = self.seq + 1;
        messages::heartbeat(self.seq, &self.config, sending_time, None)
    }
}

/// A heartbeat carries the id of the test request that it answers, and none
/// where there is none to answer.
pub proof fn heartbeat_carries_the_test_request_id(
    seq: u32,
    config: LogOnConfig,
    sending_time: Seq<char>,
    test_req_id: Option<Seq<char>>,
)
    ensures
        single_of(heartbeat_fields(seq, config, sending_time, test_req_id), tag::TEST_REQ_ID) == test_req_id,
        single_of(heartbeat_fields(seq, config, sending_time, test_req_id), tag::MSG_TYPE) == Some(
            msg_type::HEARTBEAT@,
        ),
{
    reveal_with_fuel(value_from, 7);
}

/// A message without a repeating group asks the same of the session that reads
/// it as it did where it was written.
pub proof fn written_session_message_keeps_its_duty(fields: Seq<(u32, FieldText)>)
    requires
        no_entry_no(fields),
        !has_pair(fields),
        writable(fields),
    ensures
        decoded(wire_bytes(fields)) matches Ok(read) && duty(read) == duty(fields),
{
    written_session_message_is_read_back(fields);
    let read = preamble_fields(body_bytes(fields).len()) + body_fields(fields) + session_trailer(fields);
    assert(value_of(read, tag::MSG_TYPE) == value_of(fields, tag::MSG_TYPE));
    assert(value_of(read, tag::TEST_REQ_ID) == value_of(fields, tag::TEST_REQ_ID));
    assert(value_of(read, tag::SYMBOL) == value_of(fields, tag::SYMBOL));
    assert(value_of(read, tag::BEGIN_SEQ) == value_of(fields, tag::BEGIN_SEQ));
}

/// A trade asks the same of the session that reads it as it did where it was
/// written, and holds the same entry.
pub proof fn written_trade_keeps_its_entry(
    header: Seq<(u32, FieldText)>,
    entry_no: Seq<char>,
    entries: Seq<(u32, FieldText)>,
    px: Option<Price>,
)
    requires
        no_entry_no(header),
        announces_trade(encode_utf8(entry_no)),
        only_entry_fields(entries),
        !has_pair(market_data(header, entry_no, entries)),
        writable(market_data(header, entry_no, entries)),
    ensures
        ({
            let fields = market_data(header, entry_no, entries);
            &&& decoded(wire_bytes(fields)) matches Ok(read)
            &&& duty(read) == duty(fields)
            &&& Tick::is_trade(read) == Tick::is_trade(fields)
            &&& trade_entry(read, px) == trade_entry(fields, px)
            &&& entry_time(read) == entry_time(fields)
        }),
{
    let fields = market_data(header, entry_no, entries);
    written_trade_is_read_back(header, entry_no, entries);
    let read = preamble_fields(body_bytes(fields).len()) + body_fields(fields);
    assert(value_of(read, tag::MSG_TYPE) == value_of(fields, tag::MSG_TYPE));
    assert(value_of(read, tag::TEST_REQ_ID) == value_of(fields, tag::TEST_REQ_ID));
    assert(value_of(read, tag::SYMBOL) == value_of(fields, tag::SYMBOL));
    assert(value_of(read, tag::BEGIN_SEQ) == value_of(fields, tag::BEGIN_SEQ));
    assert(value_of(read, tag::MD_ENTRY_NO) == value_of(fields, tag::MD_ENTRY_NO));
    assert(value_of(read, tag::MD_ENTRY_SIZE) == value_of(fields, tag::MD_ENTRY_SIZE));
    assert(value_of(read, tag::MD_ENTRY_DATE) == value_of(fields, tag::MD_ENTRY_DATE));
    assert(value_of(read, tag::MD_ENTRY_TIME) == value_of(fields, tag::MD_ENTRY_TIME));
    assert(value_of(read, tag::TRADE_TYPE) == value_of(fields, tag::TRADE_TYPE));
}

/// A quote asks the same of the session that reads it as it did where it was
/// written, is about the same time, and its sizes are those of its bid and its
/// offer.
pub proof fn written_quote_keeps_its_entry(
    header: Seq<(u32, FieldText)>,
    entry_no: Seq<char>,
    bid: Seq<(u32, FieldText)>,
    again: Seq<char>,
    offer: Seq<(u32, FieldText)>,
)
    requires
        no_entry_no(header),
        value_of(header, tag::MD_ENTRY_PX) is None,
        value_of(header, tag::MD_ENTRY_SIZE) is None,
        !announces_trade(encode_utf8(entry_no)),
        no_entry_no(bid),
        no_entry_no(offer),
        only_entry_fields(bid),
        only_entry_fields(offer),
        !has_pair(quote_message(header, entry_no, bid, again, offer)),
        writable(quote_message(header, entry_no, bid, again, offer)),
    ensures
        ({
            let fields = quote_message(header, entry_no, bid, again, offer);
            &&& decoded(wire_bytes(fields)) matches Ok(read)
            &&& duty(read) == duty(fields)
            &&& Tick::is_trade(read) == Tick::is_trade(fields)
            &&& entry_time(read) == entry_time(fields)
            &&& pair_int_of(read, tag::MD_ENTRY_SIZE) == (
                i32_value(last_single(bid, tag::MD_ENTRY_SIZE)),
                i32_value(last_single(offer, tag::MD_ENTRY_SIZE)),
            )
        }),
{
    let fields = quote_message(header, entry_no, bid, again, offer);
    written_quote_keeps_its_sides(header, entry_no, bid, again, offer);
    let read = decoded(wire_bytes(fields))->Ok_0;
    assert(value_of(read, tag::MSG_TYPE) == value_of(fields, tag::MSG_TYPE));
    assert(value_of(read, tag::TEST_REQ_ID) == value_of(fields, tag::TEST_REQ_ID));
    assert(value_of(read, tag::SYMBOL) == value_of(fields, tag::SYMBOL));
    assert(value_of(read, tag::BEGIN_SEQ) == value_of(fields, tag::BEGIN_SEQ));
    assert(value_of(read, tag::MD_ENTRY_NO) == value_of(fields, tag::MD_ENTRY_NO));
    assert(value_of(read, tag::MD_ENTRY_DATE) == value_of(fields, tag::MD_ENTRY_DATE));
    assert(value_of(read, tag::MD_ENTRY_TIME) == value_of(fields, tag::MD_ENTRY_TIME));
}

/// It does not matter how a stream is cut into reads: what the first part gives
/// is what the whole gives first, and the rest is left for later.
pub proof fn reads_can_be_cut_anywhere(first: Seq<u8>, second: Seq<u8>)
    ensures
        next_message_of(first + second) == (match next_message_of(first) {
            (Some(fields), rest) => (Some(fields), rest + second),
            (None, rest) => next_message_of(rest + second),
        }),
    decreases first.len(),
{
    lemma_frame_positive(first);
    lemma_frame_positive(first + second);
    match frame(first) {
        Ok(Some(len)) => {
            arrived_message_stays_the_same(first, second);
            if decoded(first.take(len)) is Err {
                reads_can_be_cut_anywhere(first.skip(len), second);
            }
        },
        _ => {},
    }
}

/// A message at the front of a stream is the next one, and the stream goes on
/// behind it; one that cannot be decoded is passed over.
pub proof fn written_message_is_next(fields: Seq<(u32, FieldText)>, rest: Seq<u8>)
    requires
        body_bytes(fields).len() <= usize::MAX,
    ensures
        next_message_of(wire_bytes(fields) + rest) == (match decoded(wire_bytes(fields)) {
            Ok(read) => (Some(read), rest),
            Err(_) => next_message_of(rest),
        }),
{
    written_message_is_extracted(fields, rest);
    lemma_frame_positive(wire_bytes(fields) + rest);
}

} // verus!
