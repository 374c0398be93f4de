use std::sync::Arc;

use fook_kdb::errors::ParsingError;
use fook_kdb::fix::raw_msg::{RawMessage, ValType};
use fook_kdb::fix::tag;
use fook_kdb::types::{Price, Prices, Quote, Tick, Trade};
use fook_kdb::utils::times::{
    combine_date_time, now, sending_time, sending_time_at, today, try_combine_date_time, Date, Timestamp, MAX_DAY,
    MIN_DAY,
};

fn single_field(fields: &mut Vec<(u32, ValType)>, tag: u32, value: &str) {
    fields.push((tag, ValType::Single(value.to_string())));
}

fn price(text: &str) -> Option<Price> {
    text.parse::<f32>().ok().map(|p| Price { bits: p.to_bits() })
}

fn prices(msg: &RawMessage) -> Prices {
    let pair = match msg.pair_text(tag::MD_ENTRY_PX) {
        Some((bid, ask)) => (price(bid), price(ask)),
        None => (None, None),
    };
    Prices { single: msg.single_text(tag::MD_ENTRY_PX).and_then(price), pair }
}

fn trade_message() -> RawMessage {
    let mut raw = RawMessage::new(6);
    single_field(&mut raw.fields, tag::MD_ENTRY_NO, "1");
    single_field(&mut raw.fields, tag::MD_ENTRY_PX, "101.5");
    single_field(&mut raw.fields, tag::MD_ENTRY_SIZE, "10");
    single_field(&mut raw.fields, tag::MD_ENTRY_DATE, "20260826");
    single_field(&mut raw.fields, tag::MD_ENTRY_TIME, "12:00:00.000");
    raw
}

fn quote_message() -> RawMessage {
    let mut raw = RawMessage::new(6);
    single_field(&mut raw.fields, tag::MD_ENTRY_NO, "2");
    raw.fields.push((
        tag::MD_ENTRY_PX,
        ValType::Pair(("101.5".to_string(), "101.7".to_string())),
    ));
    raw.fields.push((
        tag::MD_ENTRY_SIZE,
        ValType::Pair(("10".to_string(), "20".to_string())),
    ));
    single_field(&mut raw.fields, tag::MD_ENTRY_DATE, "20260826");
    single_field(&mut raw.fields, tag::MD_ENTRY_TIME, "12:00:00.000");
    raw
}

fn noon() -> Timestamp {
    let expected = chrono::NaiveDate::from_ymd_opt(2026, 8, 26)
        .unwrap()
        .and_hms_opt(12, 0, 0)
        .unwrap()
        .and_utc();
    Timestamp { secs: expected.timestamp(), nanos: 0 }
}

#[test]
fn resolves_to_trade_when_md_entry_no_is_one() {
    let raw = trade_message();
    let px = prices(&raw);

    let tick = Tick::from_raw(raw, Arc::from("DUMMY"), px).unwrap();

    assert!(matches!(tick, Tick::Trade(_)));
}

#[test]
fn resolves_to_quote_when_md_entry_no_is_two() {
    let raw = quote_message();
    let px = prices(&raw);

    let tick = Tick::from_raw(raw, Arc::from("DUMMY"), px).unwrap();

    assert!(matches!(tick, Tick::Quote(_)));
}

#[test]
fn propagates_the_underlying_error_when_shape_does_not_match() {
    let mut raw = RawMessage::new(2);
    single_field(&mut raw.fields, tag::MD_ENTRY_NO, "2");
    let px = prices(&raw);

    let result = Tick::from_raw(raw, Arc::from("DUMMY"), px);

    assert!(result.is_err());
}

#[test]
fn a_trade_takes_over_every_value() {
    let mut raw = trade_message();
    single_field(&mut raw.fields, tag::TRADE_TYPE, "-1");
    let px = prices(&raw);
    let trade = Trade::from_raw(raw, Arc::from("DUMMY"), px.single).unwrap();
    assert_eq!(trade.receive_time, noon());
    assert_eq!(&*trade.ticker_name, "DUMMY");
    assert_eq!(trade.trade_px.bits, 101.5f32.to_bits());
    assert_eq!(trade.trade_vol, 10);
    assert_eq!(trade.trd_type, Some(255));

    let mut negative = trade_message();
    negative.fields[2].1 = ValType::Single("-3".to_string());
    let px = prices(&negative);
    let trade = Trade::from_raw(negative, Arc::from("DUMMY"), px.single).unwrap();
    assert_eq!(trade.trade_vol, (-3i32) as u32);
    assert_eq!(trade.trd_type, None);
    assert_eq!(trade.clone().trade_vol, trade.trade_vol);
}

#[test]
fn a_quote_takes_over_every_value() {
    let raw = quote_message();
    let px = prices(&raw);
    let quote = Quote::from_raw(raw, Arc::from("DUMMY"), px.pair).unwrap();
    assert_eq!(quote.receive_time, noon());
    assert_eq!(quote.bid_price.bits, 101.5f32.to_bits());
    assert_eq!(quote.ask_price.bits, 101.7f32.to_bits());
    assert_eq!((quote.bid_vol, quote.ask_vol), (10, 20));
    assert_eq!(quote.clone().ask_vol, 20);
}

#[test]
fn an_incomplete_quote_says_how_many_entries_it_has() {
    let mut raw = quote_message();
    raw.fields[0].1 = ValType::Single("5".to_string());
    let px = prices(&raw);
    let err = Quote::from_raw(raw, Arc::from("DUMMY"), px.pair).unwrap_err();
    assert!(matches!(err, ParsingError::NotCompleteSnapshot(5)));
}

#[test]
fn a_tick_with_a_missing_value_is_not_valid() {
    for missing in 1..5 {
        let mut raw = trade_message();
        raw.fields.remove(missing);
        let px = prices(&raw);
        let result = Trade::try_from_raw(raw, Arc::from("DUMMY"), px.single).unwrap();
        assert!(matches!(result, Err(ParsingError::NotValidVal)));
    }
    for missing in 0..5 {
        let mut raw = quote_message();
        raw.fields.remove(missing);
        let px = prices(&raw);
        let result = Quote::try_from_raw(raw, Arc::from("DUMMY"), px.pair).unwrap();
        assert!(matches!(result, Err(ParsingError::NotValidVal)));
    }
}

#[test]
fn a_malformed_date_or_time_is_told_apart() {
    for (place, text) in [(3, "2026-08-26"), (4, "12:00:00"), (4, "25:00:00.000")] {
        let mut raw = trade_message();
        raw.fields[place].1 = ValType::Single(text.to_string());
        let px = prices(&raw);
        assert!(Tick::try_from_raw(raw, Arc::from("DUMMY"), px).is_none());
    }
}

#[test]
fn combines_a_date_and_a_time() {
    let time = combine_date_time("20260826", "12:34:56.789");
    let expected = chrono::NaiveDate::from_ymd_opt(2026, 8, 26)
        .unwrap()
        .and_hms_milli_opt(12, 34, 56, 789)
        .unwrap()
        .and_utc();
    assert_eq!(time.secs, expected.timestamp());
    assert_eq!(time.nanos, 789_000_000);
    assert_eq!(time.timestamp_micros(), expected.timestamp_micros());

    assert!(try_combine_date_time("20260826", "12:34:56").is_none());
    assert!(try_combine_date_time("20261301", "12:34:56.789").is_none());
}

#[test]
fn points_in_time_fall_on_their_dates() {
    let before_epoch = Timestamp { secs: -1, nanos: 0 };
    let expected = chrono::NaiveDate::from_ymd_opt(1969, 12, 31).unwrap();
    assert_eq!(before_epoch.date_naive().day, chrono::Datelike::num_days_from_ce(&expected));
    assert_eq!(before_epoch.timestamp_micros(), -1_000_000);
    assert_eq!(Timestamp { secs: 0, nanos: 1_999 }.timestamp_micros(), 1);
    assert_eq!(Timestamp { secs: 86_399, nanos: 0 }.date_naive(), Date { day: 719_163 });
    assert_eq!(Timestamp { secs: 86_400, nanos: 0 }.date_naive(), Date { day: 719_164 });
}

#[test]
fn the_calendar_is_as_long_as_chrono_has_it() {
    assert_eq!(MIN_DAY, chrono::Datelike::num_days_from_ce(&chrono::NaiveDate::MIN));
    assert_eq!(MAX_DAY, chrono::Datelike::num_days_from_ce(&chrono::NaiveDate::MAX));
    let last = Timestamp { secs: chrono::DateTime::<chrono::Utc>::MAX_UTC.timestamp(), nanos: 999_999_999 };
    assert_eq!(last.date_naive().day, MAX_DAY);
    assert_eq!(last.timestamp_micros(), chrono::DateTime::<chrono::Utc>::MAX_UTC.timestamp_micros());
    let first = Timestamp { secs: chrono::DateTime::<chrono::Utc>::MIN_UTC.timestamp(), nanos: 0 };
    assert_eq!(first.date_naive().day, MIN_DAY);
}

#[test]
fn the_clock_gives_a_sending_time() {
    let text = sending_time();
    assert_eq!(text.len(), "20260826-12:00:00.000".len());
    assert_eq!(&text[8..9], "-");
    assert_eq!(&text[17..18], ".");
    let at = Timestamp { secs: noon().secs + 1, nanos: 45_999_999 };
    assert_eq!(sending_time_at(at), "20260826-12:00:01.045");
    assert!(now().secs > 1_700_000_000);
    assert!(today().day > 738_000);
}
