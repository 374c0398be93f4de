//! The messages that a session sends.
use vstd::prelude::*;

use crate::config::LogOnConfig;
use crate::fix::codec::has_pair;
use crate::fix::raw_msg::{FieldText, RawMessage, ValType};
use crate::fix::tag;
use crate::fix::tag::msg_type;
use crate::text::{decimal, decimal_text};

verus! {

/// A field that holds a single text.
pub open spec fn single(tag: u32, text: Seq<char>) -> (u32, FieldText) {
    (tag, FieldText::Single(text))
}

/// What every message starts with: its type, its sequence number, the sender,
/// the target and the time of sending.
pub open spec fn header_fields(
    msg_type: Seq<char>,
    seq: u32,
    config: LogOnConfig,
    sending_time: Seq<char>,
) -> Seq<(u32, FieldText)> {
    seq![
        single(tag::MSG_TYPE, msg_type),
        single(tag::MSG_SEQ_NUM, decimal(seq as nat)),
        single(tag::SENDER_COMP_ID, config.sender_id@),
        single(tag::TARGET_COMP_ID, config.target_id@),
        single(tag::SENDING_TIME, sending_time),
    ]
}

/// The fields of a Logon(A).
pub open spec fn logon_fields(seq: u32, config: LogOnConfig, sending_time: Seq<char>) -> Seq<(u32, FieldText)> {
    header_fields(msg_type::LOGON@, seq, config, sending_time) + seq![
        single(tag::ENCRYPT_METHOD, "0"@),
        single(tag::HEART_BT_INT, decimal(config.heart_bt_int as nat)),
        single(tag::RESET_SEQ_NUM_FLAG, if config.reset_seq_no { "Y"@ } else { "N"@ }),
        single(tag::USERNAME, config.username@),
        single(tag::PASSWORD, config.password@),
    ]
}

/// The fields of a Heartbeat(0).
pub open spec fn heartbeat_fields(
    seq: u32,
    config: LogOnConfig,
    sending_time: Seq<char>,
    test_req_id: Option<Seq<char>>,
) -> Seq<(u32, FieldText)> {
    header_fields(msg_type::HEARTBEAT@, seq, config, sending_time) + match test_req_id {
        Some(id) => seq![single(tag::TEST_REQ_ID, id)],
        None => seq![],
    }
}

/// One Symbol field for each symbol.
pub open spec fn symbol_fields(symbols: Seq<String>) -> Seq<(u32, FieldText)> {
    symbols.map_values(|s: String| single(tag::SYMBOL, s@))
}

/// The fields of a MarketDataRequest(V): a subscription to the top of the book,
/// bids, offers and trades, for every symbol.
pub open spec fn market_data_request_fields(
    seq: u32,
    config: LogOnConfig,
    sending_time: Seq<char>,
    req_id: Seq<char>,
    symbols: Seq<String>,
) -> Seq<(u32, FieldText)> {
    header_fields(msg_type::MARKET_DATA_REQUEST@, seq, config, sending_time) + seq![
        single(tag::MD_REQ_ID, req_id),
        single(tag::SUBSCRIPTION_REQUEST_TYPE, "1"@),
        single(tag::MARKET_DEPTH, "1"@),
        single(tag::NO_MD_ENTRY_TYPES, decimal(3)),
        single(tag::MD_ENTRY_TYPE, "0"@),
        single(tag::MD_ENTRY_TYPE, "1"@),
        single(tag::MD_ENTRY_TYPE, "2"@),
        single(tag::NO_RELATED_SYM, decimal(symbols.len())),
    ] + symbol_fields(symbols)
}

/// The fields of a SequenceReset(4) that fills a gap.
pub open spec fn seq_number_reset_fields(
    seq: u32,
    config: LogOnConfig,
    sending_time: Seq<char>,
    new_start: u32,
) -> Seq<(u32, FieldText)> {
    header_fields(msg_type::SEQUENCE_RESET@, seq, config, sending_time) + seq![
        single(tag::GAP_FILL_FLAG, "Y"@),
        single(tag::POSS_DUP_FLAG, "Y"@),
        single(tag::NEW_SEQ_NO, decimal(new_start as nat)),
    ]
}

/// Appends a field that holds a single text.
fn put(msg: &mut RawMessage, tag: u32, text: &str)
    ensures
        final(msg)@ == old(msg)@.push(single(tag, text@)),
{
    msg.push(tag, ValType::Single(text.to_owned()));
}

/// Appends a field that holds a number.
fn put_number(msg: &mut RawMessage, tag: u32, number: u64)
    ensures
        final(msg)@ == old(msg)@.push(single(tag, decimal(number as nat))),
{
    msg.push(tag, ValType::Single(decimal_text(number)));
}

fn header(msg_type: &str, seq: u32, config: &LogOnConfig, sending_time: &str) -> (msg: RawMessage)
    ensures
        msg@ == header_fields(msg_type@, seq, *config, sending_time@),
{
    let mut msg: RawMessage = RawMessage::new(8);
    put(&mut msg, tag::MSG_TYPE, msg_type);
    put_number(&mut msg, tag::MSG_SEQ_NUM, seq as u64);
    put(&mut msg, tag::SENDER_COMP_ID, config.sender_id.as_str());
    put(&mut msg, tag::TARGET_COMP_ID, config.target_id.as_str());
    put(&mut msg, tag::SENDING_TIME, sending_time);
    assert(msg@ =~= header_fields(msg_type@, seq, *config, sending_time@));
    msg
}

/// Builds a Logon(A) message carrying credentials and session settings from
/// `config`.
pub fn logon(seq: u32, config: &LogOnConfig, sending_time: &str) -> (msg: RawMessage)
    ensures
        msg@ == logon_fields(seq, *config, sending_time@),
{
    let mut msg: RawMessage = header(msg_type::LOGON, seq, config, sending_time);
    put(&mut msg, tag::ENCRYPT_METHOD, "0");
    put_number(&mut msg, tag::HEART_BT_INT, config.heart_bt_int as u64);
    let reset_flag: &str = if config.reset_seq_no {
        "Y"
    } else {
        "N"
    };
    put(&mut msg, tag::RESET_SEQ_NUM_FLAG, reset_flag);
    put(&mut msg, tag::USERNAME, config.username.as_str());
    put(&mut msg, tag::PASSWORD, config.password.as_str());
    assert(msg@ =~= logon_fields(seq, *config, sending_time@));
    msg
}

/// Builds a Heartbeat(0). Pass the incoming TestReqID(112) to answer a
/// TestRequest(1); pass `None` for a heartbeat sent on the regular interval.
pub fn heartbeat(seq: u32, config: &LogOnConfig, sending_time: &str, test_req_id: Option<&str>) -> (msg: RawMessage)
    ensures
        msg@ == heartbeat_fields(
            seq,
            *config,
            sending_time@,
            match test_req_id {
                Some(id) => Some(id@),
                None => None,
            },
        ),
{
    let mut msg: RawMessage = header(msg_type::HEARTBEAT, seq, config, sending_time);
    let ghost start = msg@;
    match test_req_id {
        Some(id) => {
            put(&mut msg, tag::TEST_REQ_ID, id);
            assert(msg@ =~= start + seq![single(tag::TEST_REQ_ID, id@)]);
        },
        None => {
            assert(msg@ =~= start + seq![]);
        },
    }
    msg
}

/// Builds a MarketDataRequest(V) subscribing (snapshot + updates) to L1 quote
/// and trade ticks for every symbol in `symbols`.
pub fn market_data_request(
    seq: u32,
    config: &LogOnConfig,
    sending_time: &str,
    req_id: &str,
    symbols: &[String],
) -> (msg: RawMessage)
    ensures
        msg@ == market_data_request_fields(seq, *config, sending_time@, req_id@, symbols@),
{
    let mut msg: RawMessage = header(msg_type::MARKET_DATA_REQUEST, seq, config, sending_time);
    put(&mut msg, tag::MD_REQ_ID, req_id);
    put(&mut msg, tag::SUBSCRIPTION_REQUEST_TYPE, "1");
    put(&mut msg, tag::MARKET_DEPTH, "1");
    put_number(&mut msg, tag::NO_MD_ENTRY_TYPES, 3);
    put(&mut msg, tag::MD_ENTRY_TYPE, "0");
    put(&mut msg, tag::MD_ENTRY_TYPE, "1");
    put(&mut msg, tag::MD_ENTRY_TYPE, "2");
    put_number(&mut msg, tag::NO_RELATED_SYM, symbols.len() as u64);
    let ghost start = msg@;
    let mut i: usize = 0;
    assert(start + symbol_fields(symbols@.take(0)) =~= start);
    while i < symbols.len()
        invariant
            i <= symbols@.len(),
            msg@ == start + symbol_fields(symbols@.take(i as int)),
        decreases symbols@.len() - i,
    {
        put(&mut msg, tag::SYMBOL, symbols[i].as_str());
        i = i + 1;
        assert(msg@ =~= start + symbol_fields(symbols@.take(i as int)));
    }
    assert(symbols@.take(i as int) =~= symbols@);
    assert(msg@ =~= market_data_request_fields(seq, *config, sending_time@, req_id@, symbols@));
    msg
}

/// Builds a SequenceReset(4) that fills the gap up to `new_start`.
pub fn seq_number_reset(seq: u32, config: &LogOnConfig, sending_time: &str, new_start: u32) -> (msg: RawMessage)
    ensures
        msg@ == seq_number_reset_fields(seq, *config, sending_time@, new_start),
{
    let mut msg: RawMessage = header(msg_type::SEQUENCE_RESET, seq, config, sending_time);
    put(&mut msg, tag::GAP_FILL_FLAG, "Y");
    put(&mut msg, tag::POSS_DUP_FLAG, "Y");
    put_number(&mut msg, tag::NEW_SEQ_NO, new_start as u64);
    assert(msg@ =~= seq_number_reset_fields(seq, *config, sending_time@, new_start));
    msg
}

/// The codec writes every message that a session sends: none of them holds a
/// pair.
pub proof fn session_messages_can_be_written(
    seq: u32,
    config: LogOnConfig,
    sending_time: Seq<char>,
    test_req_id: Option<Seq<char>>,
    req_id: Seq<char>,
    symbols: Seq<String>,
    new_start: u32,
)
    ensures
        !has_pair(logon_fields(seq, config, sending_time)),
        !has_pair(heartbeat_fields(seq, config, sending_time, test_req_id)),
        !has_pair(market_data_request_fields(seq, config, sending_time, req_id, symbols)),
        !has_pair(seq_number_reset_fields(seq, config, sending_time, new_start)),
{
}

} // verus!
