use std::sync::Arc;

use fook_kdb::config::ListenConfig;
use fook_kdb::query::query::{
    build_context, extract_info, placeholder, plan_query, resolve_date_range, scan_kind, try_resolve_date_range,
    QueryError, QueryPlan, ScanShape,
};
use fook_kdb::query::session::{extract_line, next_query, response};
use fook_kdb::query::syntax;
use fook_kdb::store::batcher::{buffer_quote, buffer_trade, flush, settle, Buffered};
use fook_kdb::store::catalog::{Catalog, Kind, MergeOutcome};
use fook_kdb::store::hot_buf::{ColumnData, Frame, HotBuf, HotBufQuote, HotBufTrade};
use fook_kdb::store::hot_buffers::{hot_lazyframe_for_symbol, HotBuffers};
use fook_kdb::text::{parse_usize, split_list, trim};
use fook_kdb::types::{Price, Quote, Trade};
use fook_kdb::utils::times::{Date, Timestamp, MAX_DAY, MIN_DAY};

fn date(y: i32, m: u32, d: u32) -> Date {
    let date = chrono::NaiveDate::from_ymd_opt(y, m, d).unwrap();
    Date { day: chrono::Datelike::num_days_from_ce(&date) }
}

/// Builds a wire message the way a real client would: `TAG=VALUE`
/// pairs, each terminated by SOH (0x01), same shape FixParser expects.
fn build_message(fields: &[(u32, &str)]) -> String {
    fields.iter().map(|(tag, val)| format!("{tag}={val}\u{1}")).collect()
}

fn rejection(message: &str) -> QueryError {
    match plan_query(message, date(2026, 9, 2)) {
        Ok(_) => panic!("expected a rejection"),
        Err(e) => e,
    }
}

fn accepted(message: &str) -> QueryPlan {
    match plan_query(message, date(2026, 9, 2)) {
        Ok(plan) => plan,
        Err(e) => panic!("expected a plan, got {e:?}"),
    }
}

fn trade(symbol: &str, px: f32) -> Trade {
    Trade {
        receive_time: Timestamp { secs: 1, nanos: 0 },
        ticker_name: Arc::from(symbol),
        trade_px: Price { bits: px.to_bits() },
        trade_vol: 5,
        trd_type: Some(1),
    }
}

fn quote(symbol: &str, px: f32) -> Quote {
    Quote {
        receive_time: Timestamp { secs: 1, nanos: 0 },
        ticker_name: Arc::from(symbol),
        bid_price: Price { bits: px.to_bits() },
        bid_vol: 10,
        ask_price: Price { bits: px.to_bits() },
        ask_vol: 12,
    }
}

#[test]
fn resolve_date_range_defaults_to_today_when_neither_given() {
    let today = date(2026, 9, 2);
    assert_eq!(resolve_date_range(None, None, today), (today, today));
}

#[test]
fn resolve_date_range_extends_five_days_forward_from_a_lone_start() {
    let today = date(2026, 9, 2);
    let start = date(2026, 8, 20);
    let expected_end = date(2026, 8, 24);
    assert_eq!(resolve_date_range(Some(start), None, today), (start, expected_end));
}

#[test]
fn resolve_date_range_extends_five_days_backward_from_a_lone_end() {
    let today = date(2026, 9, 2);
    let end = date(2026, 8, 20);
    let expected_start = date(2026, 8, 16);
    assert_eq!(resolve_date_range(None, Some(end), today), (expected_start, end));
}

#[test]
fn resolve_date_range_uses_both_exactly_as_given_uncapped() {
    let today = date(2026, 9, 2);
    let start = date(2026, 8, 1);
    let end = date(2026, 8, 20);
    assert_eq!(resolve_date_range(Some(start), Some(end), today), (start, end));
}

#[test]
fn resolve_date_range_tolerates_start_and_end_given_in_reverse_order() {
    let today = date(2026, 9, 2);
    let earlier = date(2026, 8, 1);
    let later = date(2026, 8, 20);
    assert_eq!(resolve_date_range(Some(later), Some(earlier), today), (earlier, later));
}

#[test]
fn a_window_past_the_calendar_is_told_apart() {
    let today = date(2026, 9, 2);
    let (first, last) = (Date { day: MIN_DAY }, Date { day: MAX_DAY });
    assert_eq!(try_resolve_date_range(None, Some(first), today), None);
    assert_eq!(try_resolve_date_range(Some(last), None, today), None);
    assert_eq!(try_resolve_date_range(Some(last), Some(first), today), Some((first, last)));
    let edge = Date { day: MIN_DAY + 4 };
    assert_eq!(try_resolve_date_range(None, Some(edge), today), Some((first, edge)));

    let message = build_message(&[(1, "A"), (2, "S"), (3, "+262142-12-31")]);
    let err = rejection(&message);
    assert_eq!(err.to_string(), "date window out of range");
}

#[test]
fn run_query_rejects_a_message_with_no_symbol() {
    let message = build_message(&[(syntax::SENTENCE, "SELECT * FROM trades")]);

    let err = rejection(&message);
    assert!(err.to_string().contains("must specify a symbol"), "got: {err:?}");
    assert_eq!(err.to_string(), "query must specify a symbol (tag 1)");
}

#[test]
fn run_query_rejects_a_message_with_no_sentence() {
    let message = build_message(&[(syntax::SYMBOL, "BTC-USD")]);

    let err = rejection(&message);
    assert!(err.to_string().contains("SQL sentence"), "got: {err:?}");
    assert_eq!(err.to_string(), "query must include a SQL sentence (tag 2)");
}

#[test]
fn run_query_rejects_an_unimplemented_query_type() {
    let message = build_message(&[
        (syntax::QUERY_TYPE, syntax::query_type::JOIN_AS_OF),
        (syntax::SYMBOL, "BTC-USD"),
        (syntax::SENTENCE, "SELECT * FROM trades"),
    ]);

    let err = rejection(&message);
    assert!(err.to_string().contains("not implemented"), "got: {err:?}");
    assert_eq!(err.to_string(), "query type \"1\" is not implemented yet");

    let odd = build_message(&[(syntax::QUERY_TYPE, "a\"b\n")]);
    assert_eq!(
        rejection(&odd).to_string(),
        "query type \"a\\\"b\\n\" is not implemented yet"
    );
}

#[test]
fn run_query_rejects_a_malformed_date() {
    let message = build_message(&[
        (syntax::SYMBOL, "BTC-USD"),
        (syntax::SENTENCE, "SELECT * FROM trades"),
        (syntax::STT_DATE, "not-a-date"),
    ]);

    let err = rejection(&message);
    assert_eq!(
        err.to_string(),
        "invalid date 'not-a-date' (tag 3), expected YYYY-MM-DD: input contains invalid characters"
    );

    let end = build_message(&[(1, "A"), (2, "S"), (3, "2026-08-20"), (4, "2026-02-30")]);
    assert!(rejection(&end).to_string().starts_with("invalid date '2026-02-30' (tag 4), expected YYYY-MM-DD: "));
}

#[test]
fn a_query_is_scoped_to_its_symbol_and_its_days() {
    let plan = accepted(&build_message(&[(0, "0"), (1, "BTC-USD"), (2, "SELECT 1"), (4, "2026-08-20")]));
    assert_eq!(&*plan.symbol, "BTC-USD");
    assert_eq!(plan.sentence, "SELECT 1");
    assert_eq!((plan.start, plan.end), (date(2026, 8, 16), date(2026, 8, 20)));

    let plan = accepted("1=\u{1}2=S = 1");
    assert_eq!(&*plan.symbol, "");
    assert_eq!(plan.sentence, "S = 1");
    assert_eq!((plan.start, plan.end), (date(2026, 9, 2), date(2026, 9, 2)));
}

#[test]
fn a_message_in_another_format_has_no_fields() {
    assert!(extract_info("SELECT * FROM trades").fields.is_empty());
    let info = extract_info("1=\u{20ac}\u{1}99999999999=x\u{1}");
    assert_eq!(info.fields.len(), 1);
    assert_eq!(info.single_text(1), Some("\u{20ac}"));
}

fn sql_message(symbol: &str, sentence: &str) -> String {
    build_message(&[(syntax::SYMBOL, symbol), (syntax::SENTENCE, sentence)])
}

fn prices(frame: &Frame, name: &str) -> Vec<f32> {
    match frame.column(name) {
        Some(ColumnData::Prices(bits)) => bits.iter().map(|b| f32::from_bits(*b)).collect(),
        other => panic!("expected prices, got {other:?}"),
    }
}

fn header(frame: &Frame) -> String {
    let names: Vec<&str> = frame.columns.iter().map(|c| c.name.as_str()).collect();
    names.join(",")
}

fn symbols(frame: &Frame) -> Vec<String> {
    match frame.column("symbol") {
        Some(ColumnData::Texts(texts)) => texts.clone(),
        other => panic!("expected texts, got {other:?}"),
    }
}

#[test]
fn run_query_on_empty_catalog_and_empty_hot_buffers_returns_zero_rows_not_an_error() {
    let catalog = Catalog::new("unused".to_string());
    let (quotes, trades) = (HotBuffers::<HotBufQuote>::new(), HotBuffers::<HotBufTrade>::new());
    let plan = accepted(&sql_message("BTC-USD", "SELECT * FROM trades WHERE symbol = 'BTC-USD'"));

    let (scan, _) = build_context(&catalog, &quotes, &trades, &plan);

    // a real (correctly-shaped) table with zero rows, not a query error
    assert_eq!(scan.shape, ScanShape::Empty);
    let empty = placeholder(Kind::Trade);
    assert_eq!(header(&empty), "receive_time,trade_px,trade_vol,trd_type,symbol");
    assert_eq!(empty.height, 0);
    assert!(symbols(&empty).is_empty());
    assert_eq!(header(&placeholder(Kind::Quote)), "receive_time,bid_price,bid_vol,ask_price,ask_vol,symbol");
}

#[test]
fn run_query_filters_by_symbol_across_multiple_files() {
    let mut catalog = Catalog::new("data".to_string());
    let day = date(2026, 9, 2);
    catalog.add_file(Arc::from("BTC-USD"), Kind::Trade, day, "btc.parquet".to_string());
    catalog.add_file(Arc::from("ETH-USD"), Kind::Trade, day, "eth.parquet".to_string());
    let (quotes, trades) = (HotBuffers::<HotBufQuote>::new(), HotBuffers::<HotBufTrade>::new());
    let plan = accepted(&sql_message("BTC-USD", "SELECT * FROM trades WHERE symbol = 'BTC-USD'"));

    let (scan, _) = build_context(&catalog, &quotes, &trades, &plan);

    assert_eq!(scan.files, vec!["btc.parquet".to_string()], "ETH-USD's file must not be read");
    assert_eq!(&*scan.symbol, "BTC-USD", "what the rows of the file are stamped with");
    assert_eq!(scan.shape, ScanShape::Single);
}

#[test]
fn run_query_excludes_files_outside_the_resolved_date_window() {
    let mut catalog = Catalog::new("data".to_string());
    catalog.add_file(Arc::from("BTC-USD"), Kind::Trade, date(2026, 8, 20), "in_window.parquet".to_string());
    catalog.add_file(Arc::from("BTC-USD"), Kind::Trade, date(2026, 8, 1), "outside_window.parquet".to_string());
    let (quotes, trades) = (HotBuffers::<HotBufQuote>::new(), HotBuffers::<HotBufTrade>::new());

    // explicit end_date=2026-08-20, no start_date -> window is
    // 2026-08-16..=2026-08-20, which includes in_window but not
    // outside_window (2026-08-01).
    let message = build_message(&[
        (syntax::SYMBOL, "BTC-USD"),
        (syntax::SENTENCE, "SELECT * FROM trades WHERE symbol = 'BTC-USD'"),
        (syntax::EDD_DATE, "2026-08-20"),
    ]);
    let (scan, _) = build_context(&catalog, &quotes, &trades, &accepted(&message));

    assert_eq!(scan.files, vec!["in_window.parquet".to_string()]);
}

#[test]
fn run_query_sees_hot_data_that_has_never_been_flushed() {
    // empty catalog: nothing has ever been written to disk
    let catalog = Catalog::new("unused".to_string());
    let quotes = HotBuffers::<HotBufQuote>::new();
    let mut hot_trades = HotBuffers::<HotBufTrade>::new();
    buffer_trade(&mut hot_trades, trade("BTC-USD", 100.0), 4);
    let plan = accepted(&sql_message("BTC-USD", "SELECT * FROM trades WHERE symbol = 'BTC-USD'"));

    let (scan, _) = build_context(&catalog, &quotes, &hot_trades, &plan);

    let hot = scan.hot.unwrap();
    assert_eq!(header(&hot), "receive_time,trade_px,trade_vol,trd_type,symbol");
    assert_eq!(prices(&hot, "trade_px"), vec![100.0], "expected the unflushed hot row");
    assert_eq!(symbols(&hot), ["BTC-USD"], "the hot side's stamped symbol column");
}

#[test]
fn run_query_sees_hot_data_even_when_the_date_window_is_entirely_historical() {
    // "keep the current hot buffer": a query asking only about old
    // dates must still see today's not-yet-flushed rows.
    let catalog = Catalog::new("unused".to_string());
    let quotes = HotBuffers::<HotBufQuote>::new();
    let mut hot_trades = HotBuffers::<HotBufTrade>::new();
    buffer_trade(&mut hot_trades, trade("BTC-USD", 100.0), 4);
    let message = build_message(&[
        (syntax::SYMBOL, "BTC-USD"),
        (syntax::SENTENCE, "SELECT * FROM trades WHERE symbol = 'BTC-USD'"),
        (syntax::STT_DATE, "2020-01-01"),
    ]);

    let (scan, _) = build_context(&catalog, &quotes, &hot_trades, &accepted(&message));

    assert_eq!(prices(&scan.hot.unwrap(), "trade_px"), vec![100.0], "hot row must still be visible");
}

#[test]
fn run_query_unions_cold_and_hot_rows_for_the_same_symbol() {
    let mut catalog = Catalog::new("data".to_string());
    let day = date(2026, 9, 2);
    catalog.add_file(Arc::from("BTC-USD"), Kind::Quote, day, "cold.parquet".to_string());
    // The hot row: same symbol, still buffered, never flushed.
    let mut hot_quotes = HotBuffers::<HotBufQuote>::new();
    buffer_quote(&mut hot_quotes, quote("BTC-USD", 100.0), 4);
    let trades = HotBuffers::<HotBufTrade>::new();
    let plan = accepted(&sql_message(
        "BTC-USD",
        "SELECT bid_price FROM quotes WHERE symbol = 'BTC-USD' ORDER BY bid_price",
    ));

    let (_, scan) = build_context(&catalog, &hot_quotes, &trades, &plan);

    assert_eq!(scan.files, vec!["cold.parquet".to_string()], "the cold (flushed) row");
    assert_eq!(prices(&scan.hot.unwrap(), "bid_price"), vec![100.0], "the hot (unflushed) row");
    assert_eq!(scan.shape, ScanShape::Union);
}

#[test]
fn a_flushed_tick_becomes_queryable_through_the_shared_catalog() {
    let mut catalog = Catalog::new("data".to_string());
    let mut hot_quotes = HotBuffers::<HotBufQuote>::new();
    let trades = HotBuffers::<HotBufTrade>::new();
    let day = date(2026, 9, 2);

    // max_rows = 2, and exactly 2 quotes pushed -- triggers exactly one flush.
    assert_eq!(buffer_quote(&mut hot_quotes, quote("BTC-USD", 100.0), 2), Buffered::Waiting);
    assert_eq!(buffer_quote(&mut hot_quotes, quote("BTC-USD", 101.0), 2), Buffered::Full);
    let flushed = flush(&mut hot_quotes, "BTC-USD", Kind::Quote, day, catalog.data_dir()).unwrap();
    let path = flushed.path.clone();
    let rows = flushed.rows.snapshot();
    assert_eq!(prices(&rows, "bid_price"), vec![100.0, 101.0], "expected exactly 2 rows");
    assert_eq!(header(&rows), "receive_time,bid_price,bid_vol,ask_price,ask_vol");
    settle(&mut hot_quotes, &mut catalog, flushed, Kind::Quote, day, true);

    let plan = accepted(&sql_message("BTC-USD", "SELECT * FROM quotes WHERE symbol = 'BTC-USD' ORDER BY bid_price"));
    let (_, scan) = build_context(&catalog, &hot_quotes, &trades, &plan);
    assert_eq!(scan.files, vec![path]);
    assert_eq!(&*scan.symbol, "BTC-USD");
    assert!(scan.hot.is_none(), "the rows must not be read twice");
}

#[test]
fn an_unflushed_tick_is_already_queryable_through_the_shared_hot_buffer() {
    let catalog = Catalog::new("data".to_string());
    let mut hot_quotes = HotBuffers::<HotBufQuote>::new();
    let trades = HotBuffers::<HotBufTrade>::new();

    // max_rows = 10, only 1 quote pushed -- never reaches the flush threshold.
    assert_eq!(buffer_quote(&mut hot_quotes, quote("BTC-USD", 100.0), 10), Buffered::Waiting);
    assert!(catalog.all_files(Kind::Quote).is_empty());

    let plan = accepted(&sql_message("BTC-USD", "SELECT bid_price FROM quotes WHERE symbol = 'BTC-USD'"));
    let (_, scan) = build_context(&catalog, &hot_quotes, &trades, &plan);
    assert_eq!(prices(&scan.hot.unwrap(), "bid_price"), vec![100.0]);
}

#[test]
fn a_query_line_is_planned_and_its_response_is_framed() {
    // A client sends the tagged wire format (see `syntax`), not
    // raw SQL: TAG=VALUE pairs, each terminated by SOH (0x01).
    let mut buf = b"1=BTC-USD\x012=SELECT * FROM trades WHERE symbol = 'BTC-USD'\x01\n".to_vec();
    let query = next_query(&mut buf).unwrap();
    let plan = accepted(&query);
    assert_eq!(&*plan.symbol, "BTC-USD");
    assert_eq!(plan.sentence, "SELECT * FROM trades WHERE symbol = 'BTC-USD'");

    assert!(buf.is_empty());
    assert_eq!(
        response(Ok("symbol,price\nBTC-USD,100.0\n".to_string())),
        "symbol,price\nBTC-USD,100.0\n--END--\n"
    );
}

#[test]
fn a_scan_reads_the_files_of_its_window_and_all_of_memory() {
    let mut catalog = Catalog::new("data".to_string());
    let (inside, outside) = (date(2026, 8, 20), date(2026, 8, 1));
    catalog.add_file(Arc::from("BTC-USD"), Kind::Trade, inside, "in".to_string());
    catalog.add_file(Arc::from("BTC-USD"), Kind::Trade, outside, "out".to_string());
    catalog.add_file(Arc::from("ETH-USD"), Kind::Trade, inside, "other".to_string());
    let mut trades: HotBuffers<HotBufTrade> = HotBuffers::new();
    buffer_trade(&mut trades, trade("BTC-USD", 100.0), 10);
    buffer_trade(&mut trades, trade("ETH-USD", 50.0), 10);
    let mut quotes: HotBuffers<HotBufQuote> = HotBuffers::new();
    assert!(trades.can_read("BTC-USD") && quotes.can_read("BTC-USD"));

    let plan = accepted(&build_message(&[(1, "BTC-USD"), (2, "S"), (4, "2026-08-20")]));
    let (t, q) = build_context(&catalog, &quotes, &trades, &plan);
    assert_eq!(t.files, vec!["in".to_string()]);
    let hot = t.hot.unwrap();
    assert_eq!(hot.height, 1);
    assert!(matches!(
        hot.column("trade_px"),
        Some(ColumnData::Prices(bits)) if *bits == vec![100.0f32.to_bits()]
    ));
    assert_eq!(t.shape, ScanShape::Union);
    assert!(q.files.is_empty() && q.hot.is_none());
    assert_eq!(q.shape, ScanShape::Empty);

    buffer_quote(&mut quotes, quote("BTC-USD", 1.0), 10);
    let (_, q) = build_context(&catalog, &quotes, &trades, &plan);
    assert_eq!(q.shape, ScanShape::Single);

    let unnamed = scan_kind(&catalog, Kind::Trade, &Arc::from(""), inside, inside, &trades);
    assert!(unnamed.files.is_empty() && unnamed.hot.is_none(), "no symbol's rows are read for the empty one");
    assert_eq!(unnamed.shape, ScanShape::Empty);
    let one = scan_kind(&catalog, Kind::Quote, &Arc::from("ETH-USD"), inside, inside, &quotes);
    assert!(one.hot.is_none());
}

#[test]
fn memory_is_read_one_symbol_at_a_time() {
    let mut trades: HotBuffers<HotBufTrade> = HotBuffers::new();
    assert!(hot_lazyframe_for_symbol(&trades, &Arc::from("BTC-USD")).is_none());
    buffer_trade(&mut trades, trade("BTC-USD", 100.0), 10);
    buffer_trade(&mut trades, trade("ETH-USD", 50.0), 10);
    buffer_trade(&mut trades, trade("BTC-USD", 101.0), 10);

    let frame = hot_lazyframe_for_symbol(&trades, &Arc::from("BTC-USD")).unwrap();
    assert_eq!(frame.height, 2);
    assert_eq!(prices(&frame, "trade_px"), vec![100.0, 101.0]);
    assert_eq!(symbols(&frame), ["BTC-USD", "BTC-USD"]);
    assert!(hot_lazyframe_for_symbol(&trades, &Arc::from("")).is_none());

    flush(&mut trades, "BTC-USD", Kind::Trade, date(2026, 9, 2), "data").unwrap();
    assert!(hot_lazyframe_for_symbol(&trades, &Arc::from("BTC-USD")).is_none(), "buffered, but empty");
    assert_eq!(hot_lazyframe_for_symbol(&trades, &Arc::from("ETH-USD")).unwrap().height, 1);
}

#[test]
fn cold_files_are_read_in_the_order_of_their_days() {
    let mut catalog = Catalog::new("data".to_string());
    let (first, second, third) = (date(2026, 9, 1), date(2026, 9, 2), date(2026, 9, 3));
    let symbol: Arc<str> = Arc::from("BTC-USD");
    for (day, path) in [(third, "e"), (first, "a"), (second, "c"), (first, "b"), (second, "d")] {
        catalog.add_file(symbol.clone(), Kind::Trade, day, path.to_string());
    }
    catalog.add_file(Arc::from("ETH-USD"), Kind::Trade, second, "other".to_string());
    let mut trades: HotBuffers<HotBufTrade> = HotBuffers::new();
    buffer_trade(&mut trades, trade("BTC-USD", 100.0), 10);

    let scan = scan_kind(&catalog, Kind::Trade, &symbol, first, third, &trades);
    assert_eq!(scan.files, ["a", "b", "c", "d", "e"]);
    assert_eq!(scan.hot.unwrap().height, 1);
    assert_eq!(scan_kind(&catalog, Kind::Trade, &symbol, second, third, &trades).files, ["c", "d", "e"]);
}

#[test]
fn a_merged_file_is_read_in_place_of_its_sources() {
    let mut catalog = Catalog::new("data".to_string());
    let (first, second) = (date(2026, 9, 1), date(2026, 9, 2));
    let symbol: Arc<str> = Arc::from("BTC-USD");
    catalog.add_file(symbol.clone(), Kind::Trade, first, "a".to_string());
    catalog.add_file(symbol.clone(), Kind::Trade, first, "b".to_string());
    catalog.add_file(symbol.clone(), Kind::Trade, second, "c".to_string());
    let superseded = catalog.concat_from_cache(symbol.clone(), Kind::Trade, first, MergeOutcome::Written);
    assert_eq!(superseded, ["a", "b"]);

    let trades: HotBuffers<HotBufTrade> = HotBuffers::new();
    let scan = scan_kind(&catalog, Kind::Trade, &symbol, first, second, &trades);
    assert_eq!(scan.files, ["data/Trade/2026-09-01/BTC-USD/merged-0.parquet", "c"]);
}

#[test]
fn extract_line_returns_none_until_a_full_line_arrives() {
    let mut buf = b"SELECT * FROM".to_vec();
    assert_eq!(extract_line(&mut buf), None);
    assert_eq!(buf, b"SELECT * FROM");
}

#[test]
fn extract_line_extracts_and_drains_exactly_one_line() {
    let mut buf = b"SELECT 1\nSELECT 2\npartial".to_vec();

    assert_eq!(extract_line(&mut buf).unwrap(), "SELECT 1");
    assert_eq!(extract_line(&mut buf).unwrap(), "SELECT 2");
    assert_eq!(extract_line(&mut buf), None);
    assert_eq!(buf, b"partial");
}

#[test]
fn extract_line_trims_surrounding_whitespace() {
    let mut buf = b"  SELECT 1  \n".to_vec();
    assert_eq!(extract_line(&mut buf).unwrap(), "SELECT 1");
}

#[test]
fn a_line_that_is_not_text_is_repaired() {
    let mut buf = b"a\xffb\r\n".to_vec();
    assert_eq!(extract_line(&mut buf).unwrap(), "a\u{fffd}b");
    assert!(buf.is_empty());
}

#[test]
fn empty_lines_are_passed_over() {
    let mut buf = b"\n  \n\t\r\nSELECT 1\n\nrest".to_vec();
    assert_eq!(next_query(&mut buf).unwrap(), "SELECT 1");
    assert_eq!(next_query(&mut buf), None);
    assert_eq!(buf, b"rest");
}

#[test]
fn responses_end_with_their_marker() {
    assert_eq!(response(Ok("a,b\n1,2\n".to_string())), "a,b\n1,2\n--END--\n");
    assert_eq!(response(Err("no".to_string())), "ERROR: no\n--END--\n");
}

#[test]
fn the_listener_has_defaults() {
    let bare = ListenConfig { addr: None, port: None, timeout: None };
    assert_eq!(bare.bind_address(), "0.0.0.0:5432");
    assert_eq!(bare.idle_timeout(), 300);
    let default = ListenConfig::default();
    assert_eq!(default.bind_address(), "0.0.0.0:5432");
    let own = ListenConfig { addr: Some("::1".to_string()), port: Some("1".to_string()), timeout: Some(0) };
    assert_eq!(own.clone().bind_address(), "::1:1");
    assert_eq!(own.idle_timeout(), 1);
}

#[test]
fn trimming_and_splitting_go_by_unicode_white_space() {
    let all: String = (0..=0x10FFFFu32).filter_map(char::from_u32).filter(|c| c.is_whitespace()).collect();
    assert_eq!(all.chars().count(), 25);
    assert_eq!(trim(&format!("{all}x{all}y{all}")), format!("x{all}y"));
    assert_eq!(trim(&all), "");
    assert_eq!(trim("\u{200b}x"), "\u{200b}x");
    assert_eq!(split_list("BTC-USD, ETH-USD ,,"), vec!["BTC-USD", "ETH-USD", "", ""]);
    assert_eq!(split_list(""), vec![""]);
}

#[test]
fn lengths_are_read_as_the_standard_library_reads_them() {
    for text in ["", "+", "-", "0", "+0", "-0", "007", "18446744073709551615", "18446744073709551616", "1 "] {
        assert_eq!(parse_usize(text.as_bytes()), text.parse::<usize>().ok(), "{text:?}");
    }
}
