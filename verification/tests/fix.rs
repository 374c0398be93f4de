use bytes::BytesMut;
use fook_kdb::config::LogOnConfig;
use fook_kdb::errors::{LoadError, ParsingError};
use fook_kdb::fix::codec::{wire_fits, FixCodec};
use fook_kdb::fix::messages::{heartbeat, logon, market_data_request, seq_number_reset};
use fook_kdb::fix::parser::{FixField, FixParser};
use fook_kdb::fix::raw_msg::{RawMessage, ValType};
use fook_kdb::fix::tag;
use fook_kdb::fix::tag::msg_type;

fn test_config() -> LogOnConfig {
    LogOnConfig {
        host: "exchange.example.com".to_string(),
        port: "9001".to_string(),
        sender_id: "US".to_string(),
        target_id: "EX".to_string(),
        username: "alice".to_string(),
        password: "secret".to_string(),
        reset_seq_no: true,
        heart_bt_int: 30,
    }
}

fn single(msg: &RawMessage, t: u32) -> &str {
    match msg.get_val(t).expect("tag missing") {
        ValType::Single(v) => v.as_str(),
        ValType::Pair(_) => panic!("expected a single value"),
    }
}

fn all_singles(msg: &RawMessage, t: u32) -> Vec<&str> {
    msg.fields
        .iter()
        .filter(|(tag, _)| *tag == t)
        .map(|(_, v)| match v {
            ValType::Single(v) => v.as_str(),
            ValType::Pair(_) => panic!("expected a single value"),
        })
        .collect()
}

fn put(msg: &mut RawMessage, t: u32, value: &str) {
    msg.fields.push((t, ValType::Single(value.to_string())));
}

fn buffer(bytes: &[u8]) -> BytesMut {
    BytesMut::from(bytes)
}

#[test]
fn parsing_error_converts_to_anyhow_with_readable_message() {
    let err: anyhow::Error = anyhow::Error::msg(ParsingError::NotValidVal.to_string());
    assert_eq!(err.to_string(), "value is not valid");
}

#[test]
fn every_parsing_error_has_its_message_and_its_source() {
    let incomplete = ParsingError::NotCompleteSnapshot(3);
    assert_eq!(incomplete.to_string(), "incomplete snapshot, 3 entries still expected");
    assert!(incomplete.source().is_none());
    assert_eq!(
        ParsingError::NotCompleteSnapshot(-12).to_string(),
        "incomplete snapshot, -12 entries still expected"
    );
    assert_eq!(
        ParsingError::NotCompleteSnapshot(i32::MIN).to_string(),
        "incomplete snapshot, -2147483648 entries still expected"
    );

    let unexpected = ParsingError::from(LoadError::UnexpectedTag);
    assert_eq!(unexpected.to_string(), "failed to load: Unexpected or unknown tag encountered");
    assert_eq!(
        unexpected.source().unwrap().to_string(),
        "Unexpected or unknown tag encountered"
    );
    assert!(ParsingError::NotValidVal.source().is_none());
}

#[test]
fn parses_well_formed_tag_value_pairs() {
    let mut parser = FixParser::new(b"8=FIX.4.2\x0135=A\x01");

    let f1 = parser.next_field().unwrap();
    assert_eq!(f1.tag, 8);
    assert_eq!(f1.value, b"FIX.4.2");

    let f2 = parser.next_field().unwrap();
    assert_eq!(f2.tag, 35);
    assert_eq!(f2.value, b"A");

    assert!(parser.next_field().is_none());
}

#[test]
fn returns_none_instead_of_panicking_on_a_non_digit_tag() {
    let mut parser = FixParser::new(b"SELECT * FROM trades");
    assert!(parser.next_field().is_none());
}

#[test]
fn returns_none_instead_of_overflowing_on_an_unreasonably_long_tag() {
    let too_many_digits = "9".repeat(20) + "=x\x01";
    let mut parser = FixParser::new(too_many_digits.as_bytes());
    assert!(parser.next_field().is_none());
}

#[test]
fn the_largest_tag_is_read_and_the_next_one_is_not() {
    let mut parser = FixParser::new(b"4294967295=x\x01");
    let field = parser.next_field().unwrap();
    assert_eq!(field.tag, u32::MAX);
    assert_eq!(field.value, b"x");
    assert_eq!(parser.pos(), 13);

    assert!(FixParser::new(b"4294967296=x\x01").next_field().is_none());
}

#[test]
fn the_position_is_the_end_of_the_last_field() {
    let mut parser = FixParser::new(b"8=A\x0112");
    assert_eq!(parser.pos(), 0);
    let field = parser.next_field().unwrap();
    assert_eq!((field.tag, field.value), (8, &b"A"[..]));
    assert_eq!(parser.pos(), 4);
    assert!(parser.next_field().is_none());
    assert_eq!(parser.pos(), 4);
    assert!(parser.next_field().is_none());
}

#[test]
fn a_field_without_a_delimiter_runs_to_the_end() {
    let mut parser = FixParser::new(b"=\x01007=a=b");
    let empty = parser.next_field().unwrap();
    assert_eq!((empty.tag, empty.value.len()), (0, 0));
    let last = parser.next_field().unwrap();
    assert_eq!(last.tag, 7);
    assert_eq!(last.value, b"a=b");
    assert_eq!(parser.pos(), 9);
    assert!(parser.next_field().is_none());
    assert_eq!(parser.pos(), 9);

    assert!(FixParser::new(b"35").next_field().is_none());
}

#[test]
fn lookups_take_the_first_field_with_a_tag() {
    let mut msg = RawMessage::new(4);
    put(&mut msg, 44, "+17");
    put(&mut msg, 44, "18");
    put(&mut msg, 45, "-2147483648");
    put(&mut msg, 46, "2147483648");
    put(&mut msg, 47, "1x");
    put(&mut msg, 48, "");
    put(&mut msg, 49, "\u{e9}t\u{e9}");
    msg.push(50, ValType::Pair(("7".to_string(), "x".to_string())));

    assert_eq!(msg.get_int(44), Some(17));
    assert_eq!(msg.get_int(45), Some(i32::MIN));
    assert_eq!(msg.get_int(46), None);
    assert_eq!(msg.get_int(47), None);
    assert_eq!(msg.get_int(48), None);
    assert_eq!(msg.get_int(50), None);
    assert_eq!(msg.get_int(51), None);
    assert_eq!(msg.get_char(44), Some('+'));
    assert_eq!(msg.get_char(48), None);
    assert_eq!(msg.get_char(49), Some('\u{e9}'));
    assert_eq!(msg.get_char(50), None);
    assert_eq!(msg.get_pair_int(50), (Some(7), None));
    assert_eq!(msg.get_pair_int(44), (None, None));
    assert_eq!(msg.single_text(44), Some("+17"));
    assert_eq!(msg.pair_text(50), Some(("7", "x")));
    assert_eq!(msg.get_tp(), None);
    put(&mut msg, tag::MSG_TYPE, "W");
    assert_eq!(msg.get_tp(), Some("W"));

    let copy = msg.clone();
    assert_eq!(copy.fields.len(), msg.fields.len());
    assert_eq!(copy.pair_text(50), Some(("7", "x")));
    assert!(RawMessage::default().fields.is_empty());
}

#[test]
fn a_value_that_is_not_text_is_not_appended() {
    let mut msg = RawMessage::new(1);
    let err = msg.append_single(&FixField { tag: 58, value: b"ab\xff" }).unwrap_err();
    assert!(msg.fields.is_empty());
    assert_eq!(
        err.to_string(),
        "failed to load: invalid utf-8 sequence of 1 bytes from index 2"
    );
    assert!(matches!(err, ParsingError::FailToLoad(LoadError::NotUtf8(_))));

    msg.append_single(&FixField { tag: 58, value: "\u{20ac}".as_bytes() }).unwrap();
    assert_eq!(msg.single_text(58), Some("\u{20ac}"));
}

/// A message encoded by `FixCodec` (as it will actually appear on the wire, complete
/// with the trailing checksum field) must decode back successfully - not just the
/// body fragment with the trailer stripped off.
#[test]
fn decodes_a_wire_encoded_trade_message_including_its_checksum_trailer() {
    let mut trade = RawMessage::new(6);
    trade.fields.push((tag::MSG_TYPE, ValType::Single("W".to_string())));
    trade.fields.push((tag::MSG_SEQ_NUM, ValType::Single("2".to_string())));
    trade.fields.push((tag::MD_ENTRY_NO, ValType::Single("1".to_string())));
    trade.fields.push((tag::MD_ENTRY_PX, ValType::Single("101.5".to_string())));
    trade.fields.push((tag::MD_ENTRY_SIZE, ValType::Single("10".to_string())));
    trade.fields.push((tag::MD_ENTRY_DATE, ValType::Single("20260826".to_string())));
    trade.fields.push((tag::MD_ENTRY_TIME, ValType::Single("12:00:00.000".to_string())));

    let mut wire = BytesMut::new();
    FixCodec.encode(trade, &mut wire).unwrap();

    let decoded = FixCodec.decode(&mut wire).unwrap().unwrap();

    assert_eq!(decoded.get_int(tag::MD_ENTRY_SIZE), Some(10));
}

#[test]
fn encodes_the_length_of_the_body_and_the_checksum() {
    let mut msg = RawMessage::new(3);
    put(&mut msg, tag::BEGIN_STRING, "ignored");
    put(&mut msg, tag::MSG_TYPE, "0");
    put(&mut msg, tag::BODY_LENGTH, "ignored");
    put(&mut msg, tag::MSG_SEQ_NUM, "12");
    put(&mut msg, tag::CHECK_SUM, "ignored");

    let mut wire = buffer(b"before");
    FixCodec.encode(msg, &mut wire).unwrap();

    let body = "35=0\u{1}34=12\u{1}";
    let full = format!("8=FIX.4.4\u{1}9={}\u{1}{body}", body.len());
    let sum: u32 = full.bytes().map(u32::from).sum::<u32>() % 256;
    assert_eq!(wire.as_ref(), format!("before{full}10={sum:03}\u{1}").as_bytes());
    assert_eq!(wire.as_ref(), b"before8=FIX.4.4\x019=11\x0135=0\x0134=12\x0110=216\x01");
}

#[test]
fn pads_the_checksum_to_three_digits_and_knows_its_size() {
    let mut msg = RawMessage::new(2);
    put(&mut msg, tag::MSG_TYPE, "0");
    put(&mut msg, tag::MSG_SEQ_NUM, "100");
    let room = isize::MAX as usize - 40;
    let expected = b"8=FIX.4.4\x019=12\x0135=0\x0134=100\x0110=007\x01";
    assert_eq!(expected.len(), 34);
    assert!(wire_fits(&msg, room + 6));
    assert!(!wire_fits(&msg, room + 7));

    let mut wire = BytesMut::new();
    FixCodec.encode(msg, &mut wire).unwrap();
    assert_eq!(wire.as_ref(), &expected[..]);
}

#[test]
fn a_message_with_a_pair_is_not_encoded() {
    let mut msg = RawMessage::new(2);
    put(&mut msg, tag::MSG_TYPE, "W");
    msg.push(tag::MD_ENTRY_PX, ValType::Pair(("1".to_string(), "2".to_string())));

    let mut wire = buffer(b"kept");
    let err = FixCodec.encode(msg, &mut wire).unwrap_err();

    assert_eq!(
        err.to_string(),
        "failed to load: Should not have pair val in the current version, check the response logic!"
    );
    assert_eq!(wire.as_ref(), b"kept");
}

#[test]
fn decodes_the_two_sides_of_a_quote() {
    let bytes = b"8=FIX.4.4\x019=0\x0135=W\x0155=BTC-USD\x01268=2\x01269=0\x01270=101.5\x01271=10\x01\
268=2\x01269=1\x01270=101.7\x01271=20\x01272=20260826\x01273=12:00:00.000\x0110=000\x01";
    let mut src = buffer(bytes);
    let msg = FixCodec.decode(&mut src).unwrap().unwrap();

    assert_eq!(src.as_ref(), &bytes[..]);
    assert_eq!(msg.pair_text(tag::MD_ENTRY_PX), Some(("101.5", "101.7")));
    assert_eq!(msg.pair_text(tag::MD_ENTRY_SIZE), Some(("10", "20")));
    assert_eq!(msg.single_text(tag::MD_ENTRY_DATE), Some("20260826"));
    assert_eq!(all_singles(&msg, tag::MD_ENTRY_TYPE), vec!["0", "1"]);
    assert_eq!(all_singles(&msg, tag::MD_ENTRY_NO), vec!["2", "2"]);
    assert!(msg.get_val(tag::CHECK_SUM).is_none());
}

#[test]
fn a_written_quote_keeps_its_two_sides() {
    let mut quote = RawMessage::new(12);
    put(&mut quote, tag::MSG_TYPE, "W");
    put(&mut quote, tag::SYMBOL, "BTC-USD");
    put(&mut quote, tag::MD_ENTRY_NO, "2");
    put(&mut quote, tag::MD_ENTRY_TYPE, "0");
    put(&mut quote, tag::MD_ENTRY_PX, "101.5");
    put(&mut quote, tag::MD_ENTRY_SIZE, "10");
    put(&mut quote, tag::MD_ENTRY_NO, "2");
    put(&mut quote, tag::MD_ENTRY_TYPE, "1");
    put(&mut quote, tag::MD_ENTRY_PX, "101.7");
    put(&mut quote, tag::MD_ENTRY_SIZE, "20");
    put(&mut quote, tag::MD_ENTRY_DATE, "20260826");
    put(&mut quote, tag::MD_ENTRY_TIME, "12:00:00.000");

    let mut wire = BytesMut::new();
    FixCodec.encode(quote, &mut wire).unwrap();
    let read = FixCodec.decode(&mut wire).unwrap().unwrap();

    assert_eq!(read.pair_text(tag::MD_ENTRY_PX), Some(("101.5", "101.7")));
    assert_eq!(read.get_pair_int(tag::MD_ENTRY_SIZE), (Some(10), Some(20)));
    assert_eq!(single(&read, tag::SYMBOL), "BTC-USD");
    assert_eq!(single(&read, tag::MD_ENTRY_TYPE), "0");
    assert_eq!(single(&read, tag::MD_ENTRY_TIME), "12:00:00.000");
}

#[test]
fn decodes_a_trade_with_single_values() {
    let mut src = buffer(b"35=W\x01268=01\x01269=2\x01270=7\x01271=3\x0110=000\x01");
    let msg = FixCodec.decode(&mut src).unwrap().unwrap();
    assert_eq!(msg.single_text(tag::MD_ENTRY_PX), Some("7"));
    assert_eq!(msg.get_int(tag::MD_ENTRY_SIZE), Some(3));
    assert_eq!(msg.fields.len(), 5);
}

#[test]
fn a_message_without_entries_gets_empty_sides() {
    let mut src = buffer(b"35=1\x01112=probe-9\x0110=000\x01");
    let msg = FixCodec.decode(&mut src).unwrap().unwrap();
    assert_eq!(msg.single_text(tag::TEST_REQ_ID), Some("probe-9"));
    assert_eq!(msg.single_text(tag::CHECK_SUM), Some("000"));
    assert_eq!(msg.pair_text(tag::MD_ENTRY_PX), Some(("", "")));
    assert_eq!(msg.pair_text(tag::MD_ENTRY_SIZE), Some(("", "")));
}

#[test]
fn an_entry_with_a_foreign_tag_is_not_decoded() {
    for bytes in [&b"268=1\x0155=X\x01"[..], &b"268=2\x01270=1\x0158=late\x01"[..]] {
        let err = FixCodec.decode(&mut buffer(bytes)).unwrap_err();
        assert_eq!(err.to_string(), "failed to load: Unexpected or unknown tag encountered");
    }
    for bytes in [&b"58=\xff\x01"[..], &b"268=1\x01270=\xff\x01"[..], &b"268=2\x01271=\xff\x01"[..]] {
        let err = FixCodec.decode(&mut buffer(bytes)).unwrap_err();
        assert_eq!(
            err.to_string(),
            "failed to load: invalid utf-8 sequence of 1 bytes from index 0"
        );
    }
}

#[test]
fn an_entry_number_that_is_no_number_announces_a_quote() {
    for entry_no in ["", "x", "+1", "4294967297", "10"] {
        let text = format!("268={entry_no}\u{1}270=1\u{1}");
        let msg = FixCodec.decode(&mut buffer(text.as_bytes())).unwrap().unwrap();
        assert_eq!(msg.pair_text(tag::MD_ENTRY_PX), Some(("1", "")), "entry number {entry_no:?}");
    }
}

#[test]
fn logon_carries_credentials_and_session_settings() {
    let config = test_config();

    let msg = logon(1, &config, "20260826-12:00:00.000");

    assert_eq!(single(&msg, tag::MSG_TYPE), msg_type::LOGON);
    assert_eq!(single(&msg, tag::MSG_SEQ_NUM), "1");
    assert_eq!(single(&msg, tag::SENDER_COMP_ID), "US");
    assert_eq!(single(&msg, tag::TARGET_COMP_ID), "EX");
    assert_eq!(single(&msg, tag::USERNAME), "alice");
    assert_eq!(single(&msg, tag::PASSWORD), "secret");
    assert_eq!(single(&msg, tag::HEART_BT_INT), "30");
    assert_eq!(single(&msg, tag::RESET_SEQ_NUM_FLAG), "Y");
}

#[test]
fn heartbeat_without_test_req_id_omits_the_tag() {
    let config = test_config();

    let msg = heartbeat(2, &config, "20260826-12:00:00.000", None);

    assert_eq!(single(&msg, tag::MSG_TYPE), msg_type::HEARTBEAT);
    assert!(msg.get_val(tag::TEST_REQ_ID).is_none());
}

#[test]
fn heartbeat_replying_to_a_test_request_echoes_its_id() {
    let config = test_config();

    let msg = heartbeat(3, &config, "20260826-12:00:00.000", Some("probe-1"));

    assert_eq!(single(&msg, tag::MSG_TYPE), msg_type::HEARTBEAT);
    assert_eq!(single(&msg, tag::TEST_REQ_ID), "probe-1");
}

#[test]
fn market_data_request_subscribes_to_l1_quote_and_trade_for_every_symbol() {
    let config = test_config();
    let symbols = vec!["BTC-USD".to_string(), "ETH-USD".to_string()];

    let msg = market_data_request(4, &config, "20260826-12:00:00.000", "req-1", &symbols);

    assert_eq!(single(&msg, tag::MSG_TYPE), msg_type::MARKET_DATA_REQUEST);
    assert_eq!(single(&msg, tag::MD_REQ_ID), "req-1");
    assert_eq!(single(&msg, tag::SUBSCRIPTION_REQUEST_TYPE), "1");
    assert_eq!(single(&msg, tag::MARKET_DEPTH), "1");
    assert_eq!(single(&msg, tag::NO_MD_ENTRY_TYPES), "3");
    assert_eq!(all_singles(&msg, tag::MD_ENTRY_TYPE), vec!["0", "1", "2"]);
    assert_eq!(single(&msg, tag::NO_RELATED_SYM), "2");
    assert_eq!(all_singles(&msg, tag::SYMBOL), vec!["BTC-USD", "ETH-USD"]);
}

#[test]
fn a_sequence_reset_fills_the_gap_up_to_the_new_number() {
    let msg = seq_number_reset(7, &test_config(), "20260826-12:00:00.000", 4294967295);
    assert_eq!(single(&msg, tag::MSG_TYPE), "4");
    assert_eq!(single(&msg, tag::MSG_SEQ_NUM), "7");
    assert_eq!(single(&msg, tag::GAP_FILL_FLAG), "Y");
    assert_eq!(single(&msg, tag::POSS_DUP_FLAG), "Y");
    assert_eq!(single(&msg, tag::NEW_SEQ_NO), "4294967295");
}

#[test]
fn every_session_message_survives_the_wire() {
    let config = test_config();
    let time = "20260826-12:00:00.000";
    let symbols = vec!["BTC-USD".to_string()];
    let messages = vec![
        logon(1, &config, time),
        market_data_request(2, &config, time, "mdr-1", &symbols),
        heartbeat(3, &config, time, Some("id")),
        seq_number_reset(4, &config, time, 9),
    ];
    for msg in messages {
        let mut wire = BytesMut::new();
        FixCodec.encode(msg.clone(), &mut wire).unwrap();
        let read = FixCodec.decode(&mut wire).unwrap().unwrap();
        assert_eq!(single(&read, tag::BEGIN_STRING), "FIX.4.4");
        for (t, _) in &msg.fields {
            assert_eq!(all_singles(&read, *t), all_singles(&msg, *t));
        }
    }
}
