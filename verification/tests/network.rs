use bytes::BytesMut;
use fook_kdb::config::LogOnConfig;
use fook_kdb::errors::ParsingError;
use fook_kdb::fix::codec::FixCodec;
use fook_kdb::fix::raw_msg::{RawMessage, ValType};
use fook_kdb::fix::tag;
use fook_kdb::fix::tag::msg_type;
use fook_kdb::network::framing::extract_message;
use fook_kdb::network::session::{to_wire, Reaction, Session, StopReason};
use fook_kdb::types::{Price, Prices, Tick};
use fook_kdb::utils::caster::{can_parse_uint, parse_uint};
use fook_kdb::utils::symbol::SymbolInitilizer;

fn fix_message(body: &str) -> String {
    let with_type = format!("35=A\x01{body}");
    format!("8=FIX.4.4\x019={}\x01{with_type}10=000\x01", with_type.len())
}

fn test_config() -> LogOnConfig {
    LogOnConfig {
        host: "exchange.example.com".to_string(),
        port: "9001".to_string(),
        sender_id: "US".to_string(),
        target_id: "EX".to_string(),
        username: "alice".to_string(),
        password: "secret".to_string(),
        reset_seq_no: false,
        heart_bt_int: 3600,
    }
}

fn put(msg: &mut RawMessage, t: u32, value: &str) {
    msg.fields.push((t, ValType::Single(value.to_string())));
}

fn price(text: &str) -> Option<Price> {
    text.parse::<f32>().ok().map(|p| Price { bits: p.to_bits() })
}

fn prices(msg: &RawMessage) -> Prices {
    let pair = match msg.pair_text(tag::MD_ENTRY_PX) {
        Some((bid, ask)) => (price(bid), price(ask)),
        None => (None, None),
    };
    Prices { single: msg.single_text(tag::MD_ENTRY_PX).and_then(price), pair }
}

fn logon_ack() -> RawMessage {
    let mut msg = RawMessage::new(4);
    put(&mut msg, tag::MSG_TYPE, msg_type::LOGON);
    put(&mut msg, tag::MSG_SEQ_NUM, "1");
    msg
}

fn trade_tick(msg_seq_num: &str) -> RawMessage {
    let mut msg = RawMessage::new(8);
    put(&mut msg, tag::MSG_TYPE, msg_type::MARKET_DATA_SNAPSHOT_FULL_REFRESH);
    put(&mut msg, tag::MSG_SEQ_NUM, msg_seq_num);
    put(&mut msg, tag::SYMBOL, "BTC-USD");
    put(&mut msg, tag::MD_ENTRY_NO, "1");
    put(&mut msg, tag::MD_ENTRY_PX, "101.5");
    put(&mut msg, tag::MD_ENTRY_SIZE, "10");
    put(&mut msg, tag::MD_ENTRY_DATE, "20260826");
    put(&mut msg, tag::MD_ENTRY_TIME, "12:00:00.000");
    msg
}

fn test_request(test_req_id: &str) -> RawMessage {
    let mut msg = RawMessage::new(4);
    put(&mut msg, tag::MSG_TYPE, msg_type::TEST_REQUEST);
    put(&mut msg, tag::MSG_SEQ_NUM, "2");
    put(&mut msg, tag::TEST_REQ_ID, test_req_id);
    msg
}

fn resend_request(begin: &str) -> RawMessage {
    let mut msg = RawMessage::new(2);
    put(&mut msg, tag::MSG_TYPE, msg_type::RESEND_REQUEST);
    put(&mut msg, tag::BEGIN_SEQ, begin);
    msg
}

fn started() -> Session {
    let symbols = vec!["BTC-USD".to_string()];
    Session::start(test_config(), &symbols, "t1", "t2").0
}

fn wire(msg: RawMessage) -> BytesMut {
    to_wire(msg).unwrap()
}

fn react(session: &mut Session, msg: RawMessage) -> Reaction {
    assert!(session.can_dispatch(&msg));
    let p = prices(&msg);
    session.dispatch(msg, p, "now")
}

#[test]
fn returns_none_on_empty_buffer() {
    let mut buf = BytesMut::new();

    let result = extract_message(&mut buf).unwrap();

    assert!(result.is_none());
}

#[test]
fn returns_none_while_header_is_still_incomplete() {
    let mut buf = BytesMut::from(&b"8=FIX.4.4\x019=1"[..]);

    let result = extract_message(&mut buf).unwrap();

    assert!(result.is_none());
    assert_eq!(buf.len(), 13, "incomplete data must not be consumed");
}

#[test]
fn returns_none_while_body_is_still_arriving() {
    let full = fix_message("49=A\x01");
    let mut buf = BytesMut::from(&full.as_bytes()[..full.len() - 5]);

    let result = extract_message(&mut buf).unwrap();

    assert!(result.is_none());
}

#[test]
fn extracts_one_complete_message_and_drains_it_from_the_buffer() {
    let full = fix_message("49=A\x01");
    let mut buf = BytesMut::from(full.as_bytes());

    let extracted = extract_message(&mut buf).unwrap().unwrap();

    assert_eq!(extracted.as_ref(), full.as_bytes());
    assert!(buf.is_empty());
}

#[test]
fn extracts_first_message_and_leaves_the_rest_for_the_next_call() {
    let first = fix_message("49=A\x01");
    let second = fix_message("49=B\x01");
    let mut buf = BytesMut::from(format!("{first}{second}").as_bytes());

    let extracted = extract_message(&mut buf).unwrap().unwrap();

    assert_eq!(extracted.as_ref(), first.as_bytes());
    assert_eq!(buf.as_ref(), second.as_bytes());

    let extracted_second = extract_message(&mut buf).unwrap().unwrap();
    assert_eq!(extracted_second.as_ref(), second.as_bytes());
    assert!(buf.is_empty());
}

#[test]
fn a_header_that_is_not_fix_is_invalid_and_stays_in_the_buffer() {
    for bytes in [
        &b"9=5\x018=FIX.4.4\x01"[..],
        &b"8=FIX.4.4\x0135=A\x01"[..],
        &b"8=FIX.4.4\x019=\x01"[..],
        &b"8=FIX.4.4\x019=-1\x01"[..],
        &b"8=FIX.4.4\x019=1\xff\x01"[..],
        &b"8=FIX.4.4\x019=18446744073709551616\x01"[..],
    ] {
        let mut buf = BytesMut::from(bytes);
        assert!(matches!(extract_message(&mut buf), Err(ParsingError::NotValidVal)));
        assert_eq!(buf.as_ref(), bytes);
    }
}

#[test]
fn a_length_that_no_buffer_can_hold_is_never_complete() {
    let bytes = &b"8=FIX.4.4\x019=18446744073709551615\x0135=A\x0110=000\x01"[..];
    let mut buf = BytesMut::from(bytes);
    assert!(extract_message(&mut buf).unwrap().is_none());
    assert_eq!(buf.as_ref(), bytes);
}

#[test]
fn a_message_is_extracted_only_once_all_of_it_has_arrived() {
    let full = wire(test_request("probe-9"));
    for k in 0..full.len() {
        let mut buf = BytesMut::from(&full[..k]);
        assert!(extract_message(&mut buf).unwrap().is_none(), "after {k} bytes");
        assert_eq!(buf.as_ref(), &full[..k]);
    }
    let mut buf = full.clone();
    buf.extend_from_slice(b"tail");
    let extracted = extract_message(&mut buf).unwrap().unwrap();
    assert_eq!(extracted, full);
    assert_eq!(buf.as_ref(), b"tail");
}

#[test]
fn a_length_that_has_not_arrived_is_waited_for() {
    for bytes in [&b"8=FIX.4.4\x019="[..], &b"8=FIX.4.4\x019=+"[..]] {
        let mut buf = BytesMut::from(bytes);
        assert!(extract_message(&mut buf).unwrap().is_none());
        assert_eq!(buf.as_ref(), bytes);
        buf.extend_from_slice(b"5\x0135=A\x0110=000\x01");
        assert_eq!(extract_message(&mut buf).unwrap().unwrap().len(), bytes.len() + 14);
        assert!(buf.is_empty());
    }
    // a delimiter, or anything but a digit, ends the wait
    for bytes in [&b"8=FIX.4.4\x019=+\x01"[..], &b"8=FIX.4.4\x019=x"[..]] {
        assert!(matches!(extract_message(&mut BytesMut::from(bytes)), Err(ParsingError::NotValidVal)));
    }
}

#[test]
fn bytes_are_taken_up_where_the_buffer_can_hold_them() {
    let mut session = started();
    assert!(session.try_read(b"8=FIX"));
    assert!(session.try_read(b".4.4"));
    assert_eq!(session.buf.as_ref(), b"8=FIX.4.4");
    assert!(session.can_read(isize::MAX as usize - 9));
    assert!(!session.can_read(isize::MAX as usize - 8));
    assert!(!session.can_read(usize::MAX));
}

#[test]
fn a_session_opens_with_a_logon_and_a_subscription() {
    let symbols = vec!["BTC-USD".to_string(), "ETH-USD".to_string()];
    let (session, logon, subscribe) = Session::start(test_config(), &symbols, "t1", "t2");

    assert_eq!(logon.get_tp(), Some(msg_type::LOGON));
    assert_eq!(logon.single_text(tag::MSG_SEQ_NUM), Some("1"));
    assert_eq!(logon.single_text(tag::SENDING_TIME), Some("t1"));
    assert_eq!(subscribe.get_tp(), Some(msg_type::MARKET_DATA_REQUEST));
    assert_eq!(subscribe.single_text(tag::MSG_SEQ_NUM), Some("2"));
    assert_eq!(subscribe.single_text(tag::MD_REQ_ID), Some("mdr-1"));
    assert_eq!(subscribe.single_text(tag::SENDING_TIME), Some("t2"));
    assert_eq!(session.seq, 2);
    assert_eq!(session.config.heartbeat_interval(), 3600);
    assert_eq!(session.config.address(), "exchange.example.com:9001");
}

#[test]
fn logs_on_then_subscribes_before_forwarding_ticks() {
    let symbols = vec!["BTC-USD".to_string()];
    let (mut session, logon, subscribe) = Session::start(test_config(), &symbols, "t1", "t2");

    let mut exchange_buf = wire(logon);
    exchange_buf.extend_from_slice(&wire(subscribe));
    let mut first = extract_message(&mut exchange_buf).unwrap().unwrap();
    let logon = FixCodec.decode(&mut first).unwrap().unwrap();
    assert_eq!(logon.get_tp(), Some(msg_type::LOGON));
    session.on_read(&wire(logon_ack()));

    let mut second = extract_message(&mut exchange_buf).unwrap().unwrap();
    let subscribe = FixCodec.decode(&mut second).unwrap().unwrap();
    assert_eq!(subscribe.get_tp(), Some(msg_type::MARKET_DATA_REQUEST));

    session.on_read(&wire(trade_tick("2")));

    let ack = session.next_message().unwrap();
    assert!(matches!(react(&mut session, ack), Reaction::Ignore));
    let tick = session.next_message().unwrap();
    match react(&mut session, tick) {
        Reaction::Forward(Tick::Trade(trade)) => {
            assert_eq!(&*trade.ticker_name, "BTC-USD");
            assert_eq!(trade.trade_vol, 10);
            assert_eq!(trade.trade_px.bits, 101.5f32.to_bits());
        }
        other => panic!("expected a trade, got {other:?}"),
    }
    assert!(session.next_message().is_none());
}

#[test]
fn answers_test_request_with_a_heartbeat_echoing_its_id() {
    let mut session = started();
    session.on_read(&wire(test_request("probe-9")));

    let request = session.next_message().unwrap();
    let reply = match react(&mut session, request) {
        Reaction::Send(reply) => reply,
        other => panic!("expected a reply, got {other:?}"),
    };
    let mut sent = wire(reply);
    let reply = FixCodec.decode(&mut sent).unwrap().unwrap();
    assert_eq!(reply.get_tp(), Some(msg_type::HEARTBEAT));
    match reply.get_val(tag::TEST_REQ_ID) {
        Some(ValType::Single(id)) => assert_eq!(id, "probe-9"),
        other => panic!("expected TestReqID to be echoed, got {other:?}"),
    }
    assert_eq!(reply.single_text(tag::MSG_SEQ_NUM), Some("3"));
    assert_eq!(session.seq, 3);
}

#[test]
fn a_heartbeat_on_the_timer_takes_the_next_sequence_number() {
    let mut session = started();
    let msg = session.on_heartbeat("t3");
    assert_eq!(msg.get_tp(), Some(msg_type::HEARTBEAT));
    assert_eq!(msg.single_text(tag::MSG_SEQ_NUM), Some("3"));
    assert!(msg.get_val(tag::TEST_REQ_ID).is_none());
    assert_eq!(session.seq, 3);
}

#[test]
fn a_resend_request_is_answered_by_filling_the_gap() {
    let mut session = started();
    match react(&mut session, resend_request("1")) {
        Reaction::Send(msg) => {
            assert_eq!(msg.get_tp(), Some(msg_type::SEQUENCE_RESET));
            assert_eq!(msg.single_text(tag::MSG_SEQ_NUM), Some("1"));
            assert_eq!(msg.single_text(tag::NEW_SEQ_NO), Some("3"));
        }
        other => panic!("expected a reply, got {other:?}"),
    }
    assert_eq!(session.seq, 3);
}

#[test]
fn the_session_stops_on_logout_and_on_a_resend_request_without_a_start() {
    let mut session = started();
    let mut logout = RawMessage::new(1);
    put(&mut logout, tag::MSG_TYPE, msg_type::LOGOUT);
    let mut missing = RawMessage::new(1);
    put(&mut missing, tag::MSG_TYPE, msg_type::RESEND_REQUEST);
    let mut paired = RawMessage::new(2);
    put(&mut paired, tag::MSG_TYPE, msg_type::RESEND_REQUEST);
    paired.push(tag::BEGIN_SEQ, ValType::Pair(("1".to_string(), "2".to_string())));

    for (msg, reason, text) in [
        (logout, StopReason::Logout, "exchange sent Logout, ending session"),
        (missing, StopReason::BeginSeqMissing, "Receive invalid begin seq no on resend request"),
        (paired, StopReason::BeginSeqNotSingle, "Does not receive begin seq no on resend request"),
    ] {
        match react(&mut session, msg) {
            Reaction::Stop(stop) => {
                assert_eq!(stop, reason);
                assert_eq!(stop.to_string(), text);
            }
            other => panic!("expected a stop, got {other:?}"),
        }
    }
    assert_eq!(session.seq, 2);
}

#[test]
fn a_session_says_when_it_cannot_answer() {
    let mut session = started();
    assert!(!session.can_dispatch(&resend_request("-1")));
    assert!(!session.can_dispatch(&resend_request("4294967296")));
    assert!(session.can_dispatch(&resend_request("4294967295")));
    session.seq = u32::MAX;
    assert!(!session.can_dispatch(&test_request("x")));
    assert!(!session.can_dispatch(&resend_request("1")));
    assert!(session.can_dispatch(&trade_tick("1")));
    assert!(session.can_dispatch(&RawMessage::new(0)));
}

#[test]
fn malformed_messages_are_skipped_and_the_session_goes_on() {
    let mut session = started();
    session.on_read(fix_message("268=1\x0155=X\x01").as_bytes());
    session.on_read(&wire(test_request("after")));
    let next = session.next_message().unwrap();
    assert_eq!(next.single_text(tag::TEST_REQ_ID), Some("after"));
    assert!(session.next_message().is_none());
    assert!(session.buf.is_empty());
}

#[test]
fn ticks_that_cannot_be_read_are_ignored() {
    let mut session = started();
    let mut no_symbol = RawMessage::new(1);
    put(&mut no_symbol, tag::MSG_TYPE, msg_type::MARKET_DATA_INCREMENTAL_REFRESH);
    assert!(matches!(react(&mut session, no_symbol), Reaction::Ignore));

    let mut bad_date = trade_tick("2");
    bad_date.fields[6].1 = ValType::Single("2026-08-26".to_string());
    assert!(matches!(react(&mut session, bad_date), Reaction::Ignore));

    let mut no_size = trade_tick("2");
    no_size.fields.remove(5);
    assert!(matches!(react(&mut session, no_size), Reaction::Ignore));

    assert!(matches!(react(&mut session, trade_tick("2")), Reaction::Forward(Tick::Trade(_))));
}

#[test]
fn symbols_are_shared() {
    let mut cache = SymbolInitilizer::default();
    let a = cache.get_val("BTC-USD");
    let b = cache.get_val("ETH-USD");
    let c = cache.get_val("BTC-USD");
    assert_eq!(&*a, "BTC-USD");
    assert_eq!(&*b, "ETH-USD");
    assert!(std::sync::Arc::ptr_eq(&a, &c));
    assert!(!std::sync::Arc::ptr_eq(&a, &b));
}

#[test]
fn unsigned_numbers_are_read_from_bytes() {
    assert_eq!(parse_uint(b""), 0);
    assert_eq!(parse_uint(b"007"), 7);
    assert_eq!(parse_uint(b"4294967295"), u32::MAX);
    assert!(can_parse_uint(b"4294967295"));
    assert!(!can_parse_uint(b"4294967296"));
    assert!(!can_parse_uint(b"1-"));
}
