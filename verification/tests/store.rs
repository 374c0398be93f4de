use std::sync::Arc;

use fook_kdb::config::BatchConfig;
use fook_kdb::store::batcher::{
    buffer_quote, buffer_trade, can_ingest, flush, ingest_quote, ingest_trade, is_safe_symbol, settle,
    sweep_stale, Buffered, Flush, Ingested,
};
use fook_kdb::store::catalog::{Catalog, Kind, MergeOutcome};
use fook_kdb::store::compactor::Compactor;
use fook_kdb::store::hot_buf::{
    empty_quote_frame, empty_trade_frame, ColumnData, Frame, HotBuf, HotBufQuote, HotBufTrade,
};
use fook_kdb::store::hot_buffers::HotBuffers;
use fook_kdb::store::paths::get_output_path;
use fook_kdb::types::{Price, Quote, Trade};
use fook_kdb::utils::times::{now, today, Date, Timestamp};

fn price(p: f32) -> Price {
    Price { bits: p.to_bits() }
}

fn sample_quote(receive_time: Timestamp, bid_price: f32, ask_price: f32) -> Quote {
    Quote {
        receive_time,
        ticker_name: Arc::from("BTC-USD"),
        bid_price: price(bid_price),
        bid_vol: 10,
        ask_price: price(ask_price),
        ask_vol: 12,
    }
}

fn sample_trade(receive_time: Timestamp, trade_px: f32) -> Trade {
    Trade {
        receive_time,
        ticker_name: Arc::from("BTC-USD"),
        trade_px: price(trade_px),
        trade_vol: 5,
        trd_type: Some(1),
    }
}

fn trade_of(symbol: &str, secs: i64) -> Trade {
    Trade {
        receive_time: Timestamp { secs, nanos: 0 },
        ticker_name: Arc::from(symbol),
        trade_px: price(1.5),
        trade_vol: 5,
        trd_type: None,
    }
}

fn second_later(t: Timestamp) -> Timestamp {
    Timestamp { secs: t.secs + 1, nanos: t.nanos }
}

fn column_names(frame: &Frame) -> Vec<&str> {
    frame.columns.iter().map(|c| c.name.as_str()).collect()
}

fn floats(frame: &Frame, name: &str) -> Vec<f32> {
    match frame.column(name).unwrap() {
        ColumnData::Prices(bits) => bits.iter().map(|b| f32::from_bits(*b)).collect(),
        other => panic!("expected prices, got {other:?}"),
    }
}

fn date(y: i32, m: u32, d: u32) -> Date {
    let date = chrono::NaiveDate::from_ymd_opt(y, m, d).unwrap();
    Date { day: chrono::Datelike::num_days_from_ce(&date) }
}

fn strings(files: &[String]) -> Vec<&str> {
    files.iter().map(|f| f.as_str()).collect()
}

#[test]
fn quote_buf_starts_empty() {
    let buf = HotBufQuote::new(4);
    assert_eq!(buf.len(), 0);
    assert!(buf.is_empty());
    assert_eq!(buf.oldest_receive_time(), None);
}

#[test]
fn quote_buf_tracks_len_and_the_first_rows_own_receive_time() {
    let mut buf = HotBufQuote::new(4);
    let t1 = now();
    let t2 = second_later(t1);

    buf.push(sample_quote(t1, 100.0, 100.5));
    buf.push(sample_quote(t2, 101.0, 101.5));

    assert_eq!(buf.len(), 2);
    assert!(!buf.is_empty());
    // oldest_receive_time must be the first row's own receive_time, not
    // whatever wall-clock time happened to be when push() ran, and must
    // stay pinned to the first row even after a second push.
    assert_eq!(buf.oldest_receive_time(), Some(t1));
}

#[test]
fn quote_buf_to_dataframe_has_expected_columns_and_values() {
    let mut buf = HotBufQuote::new(4);
    let t = now();
    buf.push(sample_quote(t, 100.0, 100.5));
    buf.push(sample_quote(t, 101.0, 101.5));

    let df = buf.to_dataframe();

    assert_eq!(df.height, 2);
    assert_eq!(
        column_names(&df),
        vec!["receive_time", "bid_price", "bid_vol", "ask_price", "ask_vol"]
    );
    assert_eq!(floats(&df, "bid_price"), vec![100.0, 101.0]);
    assert_eq!(floats(&df, "ask_price"), vec![100.5, 101.5]);
    assert!(matches!(df.column("receive_time"), Some(ColumnData::Times(v)) if *v == vec![t.timestamp_micros(); 2]));
    assert!(matches!(df.column("bid_vol"), Some(ColumnData::Volumes(v)) if *v == vec![10, 10]));
    assert!(matches!(df.column("ask_vol"), Some(ColumnData::Volumes(v)) if *v == vec![12, 12]));
    assert!(df.column("symbol").is_none());
}

#[test]
fn quote_buf_take_hands_back_old_data_and_resets_in_place() {
    let mut buf = HotBufQuote::new(4);
    buf.push(sample_quote(now(), 100.0, 100.5));
    buf.push(sample_quote(now(), 101.0, 101.5));

    let taken = buf.take();

    // the live buffer is immediately usable again, empty
    assert_eq!(buf.len(), 0);
    assert!(buf.is_empty());
    assert_eq!(buf.oldest_receive_time(), None);
    buf.push(sample_quote(now(), 102.0, 102.5));
    assert_eq!(buf.len(), 1);

    // the taken value still has everything that was pushed before take()
    assert_eq!(taken.len(), 2);
    assert_eq!(taken.to_dataframe().height, 2);
}

#[test]
fn quote_buf_clear_resets_state() {
    let mut buf = HotBufQuote::new(4);
    buf.push(sample_quote(now(), 100.0, 100.5));

    buf.clear();

    assert_eq!(buf.len(), 0);
    assert!(buf.is_empty());
    assert_eq!(buf.oldest_receive_time(), None);
}

#[test]
fn trade_buf_tracks_len_and_oldest_receive_time() {
    let mut buf = HotBufTrade::new(4);
    let t1 = now();
    let t2 = second_later(t1);

    buf.push(sample_trade(t1, 100.0));
    buf.push(sample_trade(t2, 101.0));

    assert_eq!(buf.len(), 2);
    assert_eq!(buf.oldest_receive_time(), Some(t1));
}

#[test]
fn trade_buf_to_dataframe_has_expected_columns_and_values() {
    let mut buf = HotBufTrade::new(4);
    let t = now();
    buf.push(sample_trade(t, 100.0));
    buf.push(sample_trade(t, 101.0));

    let df = buf.to_dataframe();

    assert_eq!(df.height, 2);
    assert_eq!(column_names(&df), vec!["receive_time", "trade_px", "trade_vol", "trd_type"]);
    assert_eq!(floats(&df, "trade_px"), vec![100.0, 101.0]);
}

#[test]
fn trade_buf_take_hands_back_old_data_and_resets_in_place() {
    let mut buf = HotBufTrade::new(4);
    buf.push(sample_trade(now(), 100.0));

    let taken = buf.take();

    assert_eq!(buf.len(), 0);
    assert_eq!(taken.len(), 1);
    assert_eq!(taken.to_dataframe().height, 1);
}

#[test]
fn an_absent_trade_type_stays_absent() {
    let mut buf = HotBufTrade::new(0);
    buf.push(trade_of("A", 1));
    buf.push(sample_trade(Timestamp { secs: 2, nanos: 0 }, 2.0));
    let df = buf.snapshot();
    assert!(matches!(df.column("trd_type"), Some(ColumnData::Types(v)) if *v == vec![None, Some(1)]));
    assert!(matches!(df.column("trade_vol"), Some(ColumnData::Volumes(v)) if *v == vec![5, 5]));
    assert_eq!(buf.len(), 2, "a snapshot leaves the buffer as it is");
}

#[test]
fn restored_rows_stand_in_front_of_later_ones() {
    let mut buf = HotBufQuote::new(4);
    let t = Timestamp { secs: 10, nanos: 0 };
    buf.push(sample_quote(t, 100.0, 100.5));
    let taken = buf.take();
    buf.push(sample_quote(second_later(t), 101.0, 101.5));
    buf.restore(taken);
    assert_eq!(buf.len(), 2);
    assert_eq!(buf.oldest_receive_time(), Some(t));
    assert_eq!(floats(&buf.snapshot(), "bid_price"), vec![100.0, 101.0]);

    let mut trades = HotBufTrade::new(4);
    let empty = trades.take();
    trades.push(trade_of("A", 3));
    trades.restore(empty);
    assert_eq!(trades.len(), 1);
    assert_eq!(trades.oldest_receive_time(), Some(Timestamp { secs: 3, nanos: 0 }));
}

#[test]
fn empty_frames_have_the_columns_of_their_kind() {
    let quotes = empty_quote_frame();
    assert_eq!(quotes.height, 0);
    assert_eq!(
        column_names(&quotes),
        vec!["receive_time", "bid_price", "bid_vol", "ask_price", "ask_vol", "symbol"]
    );
    let trades = empty_trade_frame();
    assert_eq!(trades.height, 0);
    assert_eq!(column_names(&trades), vec!["receive_time", "trade_px", "trade_vol", "trd_type", "symbol"]);
    assert!(matches!(trades.column("symbol"), Some(ColumnData::Texts(texts)) if texts.is_empty()));
}

#[test]
fn is_safe_symbol_accepts_plain_tickers() {
    assert!(is_safe_symbol("BTC-USD"));
    assert!(is_safe_symbol("AAPL"));
    assert!(is_safe_symbol("A.B_C-1"));
}

#[test]
fn is_safe_symbol_rejects_traversal_and_malformed_input() {
    assert!(!is_safe_symbol(""));
    assert!(!is_safe_symbol("../../etc/passwd"));
    assert!(!is_safe_symbol("/etc/passwd"));
    assert!(!is_safe_symbol("a/b"));
    assert!(!is_safe_symbol(&"X".repeat(33)));
}

#[test]
fn is_safe_symbol_draws_its_lines_exactly() {
    assert!(is_safe_symbol(&"X".repeat(32)));
    assert!(is_safe_symbol("09azAZ"));
    for text in ["a b", "a\0b", "\u{e9}", "a:", "a@", "a[", "a`", "a{"] {
        assert!(!is_safe_symbol(text), "{text:?}");
    }
}

#[test]
fn get_output_path_has_expected_shape() {
    let dir = tempfile::tempdir().unwrap();

    let path = get_output_path(
        dir.path().to_str().unwrap(),
        Kind::Quote,
        Arc::from("BTC-USD"),
        "part-0.parquet",
        &date(2026, 8, 31),
    );

    assert_eq!(
        std::path::PathBuf::from(path),
        dir.path()
            .join("Quote")
            .join("2026-08-31")
            .join("BTC-USD")
            .join("part-0.parquet")
    );
}

#[test]
fn paths_are_joined_as_the_standard_library_joins_them() {
    let day = date(2026, 8, 31);
    for (dir, symbol, file) in [
        ("data", "A", "f"),
        ("data/", "A", "f"),
        ("", "A", "f"),
        ("/", "A", "f"),
        ("data", "/abs", "f"),
        ("data", "", "f"),
        ("data", "a/", "f"),
        ("data", "A", "/f"),
    ] {
        let expected = std::path::PathBuf::from(dir).join("Trade").join("2026-08-31").join(symbol).join(file);
        let path = get_output_path(dir, Kind::Trade, Arc::from(symbol), file, &day);
        assert_eq!(path.as_str(), expected.to_str().unwrap());
    }
}

#[test]
fn a_flushed_quote_is_registered_in_the_catalog() {
    let dir = tempfile::tempdir().unwrap();
    let data_dir = dir.path().to_str().unwrap().to_string();
    let mut catalog = Catalog::new(data_dir.clone());
    let t = now();
    let day = t.date_naive();

    let mut buffers: HotBuffers<HotBufQuote> = HotBuffers::new();
    assert_eq!(buffer_quote(&mut buffers, sample_quote(t, 100.0, 100.5), 4), Buffered::Waiting);
    assert_eq!(buffer_quote(&mut buffers, sample_quote(t, 100.0, 100.5), 4), Buffered::Waiting);

    let flushed: Flush<HotBufQuote> = flush(&mut buffers, "BTC-USD", Kind::Quote, day, catalog.data_dir()).unwrap();
    assert_eq!(flushed.path, get_output_path(&data_dir, Kind::Quote, Arc::from("BTC-USD"), "part-0.parquet", &day));
    assert_eq!(flushed.rows.snapshot().height, 2);
    settle(&mut buffers, &mut catalog, flushed, Kind::Quote, day, true);

    // the sequence number advances and the buffer resets for the next flush
    let (buf, next_seq) = buffers.get("BTC-USD").unwrap();
    assert_eq!(next_seq, 1);
    assert_eq!(buf.len(), 0);

    let files = catalog.files_for(Arc::from("BTC-USD"), Kind::Quote, day);
    assert_eq!(files.len(), 1);
    assert!(files[0].ends_with("/BTC-USD/part-0.parquet"));
}

#[test]
fn flush_trade_registers_under_trade_kind_not_quote() {
    let mut catalog = Catalog::new("data".to_string());
    let t = now();
    let day = t.date_naive();
    let mut buffers: HotBuffers<HotBufTrade> = HotBuffers::new();
    buffer_trade(&mut buffers, sample_trade(t, 100.0), 4);

    let flushed = flush(&mut buffers, "BTC-USD", Kind::Trade, day, "data").unwrap();
    settle(&mut buffers, &mut catalog, flushed, Kind::Trade, day, true);

    assert_eq!(catalog.files_for(Arc::from("BTC-USD"), Kind::Trade, day).len(), 1);
    assert!(catalog.files_for(Arc::from("BTC-USD"), Kind::Quote, day).is_empty());
}

#[test]
fn a_flush_that_fails_keeps_its_rows() {
    let mut catalog = Catalog::new("data".to_string());
    let mut buffers: HotBuffers<HotBufTrade> = HotBuffers::new();
    buffer_trade(&mut buffers, trade_of("A", 5), 4);
    buffer_trade(&mut buffers, trade_of("A", 6), 4);

    let flushed = flush(&mut buffers, "A", Kind::Trade, today(), "data").unwrap();
    assert_eq!(buffers.get("A").unwrap().0.len(), 0);
    buffer_trade(&mut buffers, trade_of("A", 7), 4);
    settle(&mut buffers, &mut catalog, flushed, Kind::Trade, today(), false);

    let (buf, next_seq) = buffers.get("A").unwrap();
    assert_eq!(next_seq, 1);
    assert_eq!(buf.oldest_receive_time(), Some(Timestamp { secs: 5, nanos: 0 }));
    let df = buf.snapshot();
    assert!(matches!(
        df.column("receive_time"),
        Some(ColumnData::Times(v)) if *v == vec![5_000_000, 6_000_000, 7_000_000]
    ));
    assert!(catalog.all_files(Kind::Trade).is_empty());
    assert!(flush(&mut buffers, "B", Kind::Trade, today(), "data").is_none());
}

#[test]
fn a_buffer_is_due_once_it_holds_enough_rows() {
    let mut buffers: HotBuffers<HotBufTrade> = HotBuffers::new();
    assert_eq!(buffer_trade(&mut buffers, trade_of("A", 1), 2), Buffered::Waiting);
    assert_eq!(buffer_trade(&mut buffers, trade_of("B", 1), 2), Buffered::Waiting);
    assert_eq!(buffer_trade(&mut buffers, trade_of("A", 2), 2), Buffered::Full);
    assert_eq!(buffer_trade(&mut buffers, trade_of("../A", 2), 2), Buffered::Dropped);
    assert_eq!(buffers.symbols(), 2);
    assert!(buffers.get("../A").is_none());
    assert_eq!(buffers.get("A").unwrap().0.len(), 2);
    assert_eq!(buffer_trade(&mut buffers, trade_of("C", 2), 0), Buffered::Full);
}

#[test]
fn no_buffer_reaches_its_limit_while_files_are_written() {
    let mut catalog = Catalog::new("data".to_string());
    let mut trades: HotBuffers<HotBufTrade> = HotBuffers::new();
    let mut quotes: HotBuffers<HotBufQuote> = HotBuffers::new();
    let day = date(2026, 8, 31);
    let mut written = Vec::new();
    for (n, symbol) in ["A", "B", "A", "a/b", "A", "B", "A", ".."].into_iter().enumerate() {
        assert!(can_ingest(&trades, symbol, 2));
        match ingest_trade(&mut trades, trade_of(symbol, n as i64), 2, day, "data") {
            Ingested::Full(flushed) => {
                written.push(flushed.path.clone());
                settle(&mut trades, &mut catalog, flushed, Kind::Trade, day, true);
            }
            Ingested::Waiting => assert!(is_safe_symbol(symbol)),
            Ingested::Dropped => assert_eq!(symbol, "a/b"),
        }
        for symbol in ["A", "B", ".."] {
            if let Some((buf, _)) = trades.get(symbol) {
                assert!(buf.len() < 2);
            }
        }
    }
    assert_eq!(
        written,
        [
            "data/Trade/2026-08-31/A/part-0.parquet",
            "data/Trade/2026-08-31/B/part-0.parquet",
            "data/Trade/2026-08-31/A/part-1.parquet",
        ]
    );
    assert_eq!(strings(&catalog.all_files(Kind::Trade)), vec![written[0].as_str(), &written[2], &written[1]]);
    assert!(trades.get("a/b").is_none());

    // a limit of one row flushes every row at once
    match ingest_quote(&mut quotes, sample_quote(now(), 1.0, 2.0), 1, day, "data") {
        Ingested::Full(flushed) => assert_eq!(flushed.rows.len(), 1),
        _ => panic!("expected a flush"),
    }
}

#[test]
fn a_sweep_flushes_what_is_stale_and_nothing_else() {
    let mut buffers: HotBuffers<HotBufTrade> = HotBuffers::new();
    buffer_trade(&mut buffers, trade_of("OLD", 100), 10);
    buffer_trade(&mut buffers, trade_of("OLD", 159), 10);
    buffer_trade(&mut buffers, trade_of("NEW", 101), 10);
    buffer_trade(&mut buffers, trade_of("GONE", 100), 10);
    flush(&mut buffers, "GONE", Kind::Trade, date(2026, 8, 31), "data").unwrap();
    assert!(buffers.can_flush("OLD") && buffers.can_sweep());

    let at = Timestamp { secs: 160, nanos: 0 };
    let flushes = sweep_stale(&mut buffers, at, 60, Kind::Trade, date(2026, 8, 31), "data");

    assert_eq!(flushes.len(), 1);
    assert_eq!(&*flushes[0].symbol, "OLD");
    assert_eq!(flushes[0].path, "data/Trade/2026-08-31/OLD/part-0.parquet");
    assert_eq!(flushes[0].rows.len(), 2);
    assert_eq!(buffers.get("OLD").unwrap().0.len(), 0);
    assert_eq!(buffers.get("OLD").unwrap().1, 1);
    assert_eq!(buffers.get("NEW").unwrap().0.len(), 1);

    let just_before = Timestamp { secs: 160, nanos: 999_999_999 };
    assert!(sweep_stale(&mut buffers, just_before, 60, Kind::Trade, date(2026, 8, 31), "data").is_empty());
    let later = Timestamp { secs: 161, nanos: 0 };
    assert_eq!(sweep_stale(&mut buffers, later, 60, Kind::Trade, date(2026, 8, 31), "data").len(), 1);
}

#[test]
fn the_intervals_of_the_batcher_are_at_least_a_second() {
    let config = BatchConfig {
        max_rows: 500,
        max_age: 0,
        data_dir: "data".to_string(),
        compact_interval: 300,
        compact_threshold: 5,
    };
    assert_eq!(config.flush_interval(), 1);
    assert_eq!(config.compaction_interval(), 300);
    assert!(config.has_room());
    let endless = BatchConfig { max_rows: usize::MAX, max_age: 2, compact_interval: 0, ..config };
    assert_eq!(endless.flush_interval(), 2);
    assert_eq!(endless.compaction_interval(), 1);
    assert!(!endless.has_room());
}

#[test]
fn add_file_and_partitions_over_threshold() {
    let mut catalog = Catalog::new("unused".to_string());
    let symbol: Arc<str> = Arc::from("BTC-USD");
    let date = today();

    assert!(catalog.partitions_over(0).is_empty());

    catalog.add_file(symbol.clone(), Kind::Quote, date, "a.parquet".to_string());
    catalog.add_file(symbol.clone(), Kind::Quote, date, "b.parquet".to_string());

    assert!(catalog.partitions_over(2).is_empty(), "exactly 2 files is not over a threshold of 2");
    assert_eq!(catalog.partitions_over(1), vec![(symbol, Kind::Quote, date)]);
}

#[test]
fn files_for_returns_empty_slice_for_unknown_partition() {
    let catalog = Catalog::new("unused".to_string());
    let date = today();

    assert!(catalog.files_for(Arc::from("BTC-USD"), Kind::Quote, date).is_empty());
}

#[test]
fn the_catalog_lists_files_by_what_they_hold() {
    let mut catalog = Catalog::new("data".to_string());
    let (d1, d2) = (date(2026, 8, 1), date(2026, 8, 20));
    for (symbol, kind, day, path) in [
        ("BTC-USD", Kind::Trade, d1, "a"),
        ("ETH-USD", Kind::Trade, d1, "b"),
        ("BTC-USD", Kind::Trade, d2, "c"),
        ("BTC-USD", Kind::Quote, d2, "d"),
        ("BTC-USD", Kind::Trade, d1, "e"),
    ] {
        catalog.add_file(Arc::from(symbol), kind, day, path.to_string());
    }
    assert_eq!(strings(catalog.files_for(Arc::from("BTC-USD"), Kind::Trade, d1)), vec!["a", "e"]);
    assert_eq!(strings(&catalog.all_files(Kind::Trade)), vec!["a", "e", "b", "c"]);
    assert_eq!(strings(&catalog.all_files(Kind::Quote)), vec!["d"]);
    assert_eq!(strings(&catalog.files_for_symbol(&Arc::from("BTC-USD"), Kind::Trade)), vec!["a", "e", "c"]);
    assert_eq!(
        strings(&catalog.files_for_symbol_in_range(&Arc::from("BTC-USD"), Kind::Trade, d1, d1)),
        vec!["a", "e"]
    );
    assert_eq!(
        strings(&catalog.files_for_symbol_in_range(&Arc::from("BTC-USD"), Kind::Trade, date(2026, 8, 2), d2)),
        vec!["c"]
    );
    assert!(catalog.files_for_symbol_in_range(&Arc::from("BTC-USD"), Kind::Trade, d2, d1).is_empty());
    assert_eq!(Kind::Quote.get_label(), "Quote");
    assert_eq!(Kind::Trade.get_label(), "Trade");
}

#[test]
fn a_written_merge_takes_the_place_of_its_sources() {
    let mut catalog = Catalog::new("data".to_string());
    let day = date(2026, 8, 31);
    catalog.add_file(Arc::from("BTC-USD"), Kind::Quote, day, "part-0.parquet".to_string());
    catalog.add_file(Arc::from("BTC-USD"), Kind::Quote, day, "part-1.parquet".to_string());

    let plan = catalog.plan_merge(&Arc::from("BTC-USD"), Kind::Quote, day).expect("there are files to merge");
    assert_eq!(strings(&plan.sources), vec!["part-0.parquet", "part-1.parquet"]);
    assert_eq!(plan.target, "data/Quote/2026-08-31/BTC-USD/merged-0.parquet");
    let superseded = catalog.concat_from_cache(Arc::from("BTC-USD"), Kind::Quote, day, MergeOutcome::Written);

    // catalog now points at exactly one file, and its sources may go
    let files = catalog.files_for(Arc::from("BTC-USD"), Kind::Quote, day);
    assert_eq!(files.len(), 1);
    assert_eq!(files[0], plan.target);
    assert_eq!(strings(&superseded), vec!["part-0.parquet", "part-1.parquet"]);

    let next = catalog.plan_merge(&Arc::from("BTC-USD"), Kind::Quote, day).unwrap();
    assert_eq!(next.target, "data/Quote/2026-08-31/BTC-USD/merged-1.parquet");
}

#[test]
fn concat_from_cache_restores_the_catalog_when_a_source_file_is_missing() {
    let mut catalog = Catalog::new("data".to_string());
    let day = date(2026, 8, 31);
    catalog.add_file(Arc::from("BTC-USD"), Kind::Quote, day, "part-0.parquet".to_string());
    catalog.add_file(Arc::from("BTC-USD"), Kind::Quote, day, "does-not-exist.parquet".to_string());

    for (outcome, next) in [(MergeOutcome::NotPlanned, 0), (MergeOutcome::NotWritten, 1)] {
        assert!(catalog.concat_from_cache(Arc::from("BTC-USD"), Kind::Quote, day, outcome).is_empty());

        // the catalog must still point at exactly the original two files --
        // neither lost nor replaced by a (nonexistent) merged file
        assert_eq!(
            strings(catalog.files_for(Arc::from("BTC-USD"), Kind::Quote, day)),
            vec!["part-0.parquet", "does-not-exist.parquet"]
        );
        let target = catalog.plan_merge(&Arc::from("BTC-USD"), Kind::Quote, day).unwrap().target;
        assert!(target.ends_with(&format!("merged-{next}.parquet")));
    }
    assert!(catalog.plan_merge(&Arc::from("ETH-USD"), Kind::Quote, day).is_none());
    assert!(catalog.concat_from_cache(Arc::from("ETH-USD"), Kind::Quote, day, MergeOutcome::Written).is_empty());
    assert_eq!(catalog.all_files(Kind::Quote).len(), 2);
}

fn compact(catalog: &mut Catalog, compactor: &mut Compactor) -> usize {
    let mut merged = 0;
    compactor.begin_pass(catalog);
    while let Some((symbol, kind, day)) = compactor.next_due() {
        assert!(catalog.plan_merge(&symbol, kind, day).is_some());
        catalog.concat_from_cache(symbol, kind, day, MergeOutcome::Written);
        merged += 1;
    }
    merged
}

#[test]
fn a_pass_takes_every_partition_over_the_threshold() {
    let mut catalog = Catalog::new("data".to_string());
    let day = today();
    for symbol in ["BTC-USD", "ETH-USD"] {
        for i in 0..3 {
            catalog.add_file(Arc::from(symbol), Kind::Quote, day, format!("part-{i}.parquet"));
        }
    }

    // threshold=1: 3 files is over threshold, should get merged to 1
    let mut compactor = Compactor::new(1);
    assert!(compactor.next_due().is_none());
    assert_eq!(compact(&mut catalog, &mut compactor), 2);

    let files = catalog.files_for(Arc::from("BTC-USD"), Kind::Quote, day);
    assert_eq!(files.len(), 1, "3 files over threshold 1 should have been merged into 1");
    assert!(catalog.partitions_over(1).is_empty());
    assert_eq!(compact(&mut catalog, &mut compactor), 0);
}

#[test]
fn leaves_partitions_at_or_under_threshold_alone() {
    let mut catalog = Catalog::new("data".to_string());
    let day = today();
    catalog.add_file(Arc::from("BTC-USD"), Kind::Quote, day, "part-0.parquet".to_string());

    // threshold=1: exactly 1 file is not over threshold, should be left alone
    assert_eq!(compact(&mut catalog, &mut Compactor::new(1)), 0);

    let files = catalog.files_for(Arc::from("BTC-USD"), Kind::Quote, day);
    assert_eq!(files.len(), 1, "single file at the threshold should not be touched");
    assert_eq!(files[0], "part-0.parquet");
}
