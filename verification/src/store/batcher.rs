//! When rows are buffered, and when they are flushed to a file.
use std::sync::Arc;
use vstd::prelude::*;
use vstd::utf8::*;

use crate::config::BatchConfig;
use crate::store::catalog::{with_file, Catalog, Kind, PartitionKey};
use crate::store::column::column_limit;
use crate::store::hot_buf::{
    quote_row, trade_row, HotBuf, HotBufQuote, HotBufTrade, QuoteRow, TradeRow,
};
use crate::store::hot_buffers::{
    appended, distinct_symbols, flushed, lemma_slot, lemma_slot_unique, number_left, numbers_left,
    restored, slot, EntryModel, HotBuffers,
};
use crate::store::paths::{get_output_path, is_component, output_path, part_name, part_name_text};
use crate::text::lemma_ascii_bytes;
use crate::types::{Quote, Tick, Trade};
use crate::utils::times::{Date, Timestamp};

verus! {

/// The bytes of a ticker.
pub open spec fn is_ticker_byte(b: u8) -> bool {
    48 <= b <= 57 || 65 <= b <= 90 || 97 <= b <= 122 || b == 46 || b == 95 || b == 45
}

/// A symbol that can stand in a path: one to 32 bytes, each a letter, a digit, a
/// dot, an underscore or a hyphen.
pub open spec fn safe_symbol(symbol: Seq<char>) -> bool {
    let bytes = encode_utf8(symbol);
    0 < bytes.len() <= 32 && forall|i: int| 0 <= i < bytes.len() ==> is_ticker_byte(#[trigger] bytes[i])
}

/// `symbol` originates from the exchange's raw FIX message body and later
/// becomes a filesystem path component when a partition is flushed to parquet.
/// Rejects anything that isn't plain ticker-shaped text before it's ever
/// buffered, so a malformed SYMBOL value -- containing "../", a NUL byte, or
/// looking like an absolute path -- can never reach the write path.
pub fn is_safe_symbol(symbol: &str) -> (r: bool)
    ensures
        r == safe_symbol(symbol@),
{
    let bytes: &[u8] = symbol.as_bytes();
    if bytes.len() == 0 || bytes.len() > 32 {
        return false;
    }
    let mut i: usize = 0;
    while i < bytes.len()
        invariant
            bytes@ == encode_utf8(symbol@),
            i <= bytes@.len(),
            forall|j: int| 0 <= j < i ==> is_ticker_byte(#[trigger] bytes@[j]),
        decreases bytes@.len() - i,
    {
        let b: u8 = bytes[i];
        let letter_or_digit: bool = (48 <= b && b <= 57) || (65 <= b && b <= 90) || (97 <= b && b <= 122);
        if !(letter_or_digit || b == 46 || b == 95 || b == 45) {
            return false;
        }
        i = i + 1;
    }
    true
}

/// A safe symbol holds no separator and no NUL, and it is a single component of a
/// path unless it is one of the two names `.` and `..`.
pub proof fn safe_symbol_holds_no_separator(symbol: Seq<char>)
    requires
        safe_symbol(symbol),
    ensures
        !symbol.contains('/'),
        !symbol.contains('\0'),
        0 < symbol.len() <= 32,
        symbol != seq!['.'] && symbol != seq!['.', '.'] ==> is_component(symbol),
{
    let bytes = encode_utf8(symbol);
    assert forall|i: int| 0 <= i < bytes.len() implies #[trigger] bytes[i] < 128 by {
        assert(is_ticker_byte(bytes[i]));
    }
    lemma_ascii_bytes(symbol);
    is_ascii_chars_encode_utf8(symbol);
    assert forall|i: int| 0 <= i < symbol.len() implies symbol[i] != '/' && symbol[i] != '\0' by {
        assert(is_ticker_byte(bytes[i]));
    }
}

/// What became of a tick.
#[derive(Debug, Clone, Copy, PartialEq, Eq, Structural)]
pub enum Buffered {
    /// Its symbol is not safe, and the tick was dropped.
    Dropped,
    /// It waits in its buffer.
    Waiting,
    /// It waits in its buffer, which is due to be flushed.
    Full,
}

/// The entries with one more row in that of a symbol. A symbol that is seen for
/// the first time gets an entry with room for `max_rows` rows.
pub open spec fn with_row<R>(
    entries: Seq<EntryModel<R>>,
    symbol: Seq<char>,
    row: R,
    time: Timestamp,
    max_rows: int,
) -> Seq<EntryModel<R>> {
    match slot(entries, symbol) {
        Some(i) => entries.update(i, appended(entries[i], row, time)),
        None => entries.push(
            EntryModel { symbol, rows: seq![row], oldest: Some(time), room: max_rows, next_seq: 0 },
        ),
    }
}

/// One more row changes no symbol, and adds its own where it is new.
pub(crate) proof fn lemma_with_row_symbols<R>(
    entries: Seq<EntryModel<R>>,
    symbol: Seq<char>,
    row: R,
    time: Timestamp,
    max_rows: int,
)
    requires
        distinct_symbols(entries),
    ensures
        ({
            let after = with_row(entries, symbol, row, time, max_rows);
            &&& distinct_symbols(after)
            &&& after.len() >= entries.len()
            &&& forall|k: int|
                0 <= k < entries.len() ==> (#[trigger] after[k]).symbol == entries[k].symbol
        }),
{
    lemma_slot(entries, symbol);
}

/// The number of rows that are buffered for a symbol.
pub open spec fn rows_waiting<R>(entries: Seq<EntryModel<R>>, symbol: Seq<char>) -> nat {
    match slot(entries, symbol) {
        Some(i) => entries[i].rows.len(),
        None => 0,
    }
}

/// What becomes of a tick: an unsafe symbol is dropped, and a buffer that has
/// reached `max_rows` is due.
pub open spec fn verdict<R>(after: Seq<EntryModel<R>>, symbol: Seq<char>, max_rows: int) -> Buffered {
    if !safe_symbol(symbol) {
        Buffered::Dropped
    } else if rows_waiting(after, symbol) >= max_rows {
        Buffered::Full
    } else {
        Buffered::Waiting
    }
}

/// Appends a quote to the buffer of its symbol.
pub fn buffer_quote(buffers: &mut HotBuffers<HotBufQuote>, quote: Quote, max_rows: usize) -> (r: Buffered)
    requires
        old(buffers).wf(),
        quote.receive_time.wf(),
        max_rows * 8 <= isize::MAX,
    ensures
        final(buffers).wf(),
        final(buffers)@ == (if safe_symbol(quote.ticker_name@) {
            with_row(
                old(buffers)@,
                quote.ticker_name@,
                quote_row(quote),
                quote.receive_time,
                max_rows as int,
            )
        } else {
            old(buffers)@
        }),
        r == verdict(final(buffers)@, quote.ticker_name@, max_rows as int),
{
    let symbol: Arc<str> = quote.ticker_name.clone();
    if !is_safe_symbol(&*symbol) {
        return Buffered::Dropped;
    }
    let ghost before = buffers@;
    let ghost row = quote_row(quote);
    let ghost time = quote.receive_time;
    let i: usize = match buffers.position(&*symbol) {
        Some(i) => i,
        None => {
            buffers.insert(symbol.clone(), HotBufQuote::new(max_rows));
            buffers.symbols() - 1
        },
    };
    let n: usize = buffers.push_quote(i, quote);
    proof {
        lemma_slot(before, symbol@);
        assert(buffers@ =~= with_row(before, symbol@, row, time, max_rows as int));
        buffers.lemma_distinct();
        lemma_slot_unique(buffers@, symbol@, i as int);
    }
    if n >= max_rows {
        Buffered::Full
    } else {
        Buffered::Waiting
    }
}

/// Appends a trade to the buffer of its symbol.
pub fn buffer_trade(buffers: &mut HotBuffers<HotBufTrade>, trade: Trade, max_rows: usize) -> (r: Buffered)
    requires
        old(buffers).wf(),
        trade.receive_time.wf(),
        max_rows * 8 <= isize::MAX,
    ensures
        final(buffers).wf(),
        final(buffers)@ == (if safe_symbol(trade.ticker_name@) {
            with_row(
                old(buffers)@,
                trade.ticker_name@,
                trade_row(trade),
                trade.receive_time,
                max_rows as int,
            )
        } else {
            old(buffers)@
        }),
        r == verdict(final(buffers)@, trade.ticker_name@, max_rows as int),
{
    let symbol: Arc<str> = trade.ticker_name.clone();
    if !is_safe_symbol(&*symbol) {
        return Buffered::Dropped;
    }
    let ghost before = buffers@;
    let ghost row = trade_row(trade);
    let ghost time = trade.receive_time;
    let i: usize = match buffers.position(&*symbol) {
        Some(i) => i,
        None => {
            buffers.insert(symbol.clone(), HotBufTrade::new(max_rows));
            buffers.symbols() - 1
        },
    };
    let n: usize = buffers.push_trade(i, trade);
    proof {
        lemma_slot(before, symbol@);
        assert(buffers@ =~= with_row(before, symbol@, row, time, max_rows as int));
        buffers.lemma_distinct();
        lemma_slot_unique(buffers@, symbol@, i as int);
    }
    if n >= max_rows {
        Buffered::Full
    } else {
        Buffered::Waiting
    }
}

/// Rows on their way to a file.
pub struct Flush<B> {
    pub symbol: Arc<str>,
    pub path: String,
    pub rows: B,
}

impl<B: HotBuf> Flush<B> {
    /// Whether these are the rows of an entry, on their way to its next file.
    pub open spec fn of(self, entry: EntryModel<B::Row>, kind: Kind, date: Date, data_dir: Seq<char>) -> bool {
        &&& self.symbol@ == entry.symbol
        &&& self.path@ == output_path(data_dir, kind, entry.symbol, part_name(entry.next_seq as nat), date)
        &&& self.rows.wf()
        &&& self.rows.rows() == entry.rows
        &&& self.rows.oldest() == entry.oldest
        &&& self.rows.room() == entry.room
    }
}

fn flush_at<B: HotBuf>(buffers: &mut HotBuffers<B>, i: usize, kind: Kind, date: Date, data_dir: &str) -> (r: Flush<B>)
    requires
        old(buffers).wf(),
        i < old(buffers)@.len(),
        old(buffers)@[i as int].next_seq < u32::MAX,
        date.wf(),
    ensures
        final(buffers).wf(),
        final(buffers)@ == old(buffers)@.update(i as int, flushed(old(buffers)@[i as int])),
        r.of(old(buffers)@[i as int], kind, date, data_dir@),
{
    let (symbol, file_seq) = buffers.label_at(i);
    let file_name: String = part_name_text(file_seq);
    let path: String = get_output_path(data_dir, kind, symbol.clone(), file_name.as_str(), &date);
    let rows: B = buffers.take_rows(i);
    Flush { symbol, path, rows }
}

/// Takes the rows of a symbol out of its buffer, and says which file they go to.
/// `None` where the symbol has no buffer. `settle` is to be told whether the
/// file was written.
pub fn flush<B: HotBuf>(buffers: &mut HotBuffers<B>, symbol: &str, kind: Kind, date: Date, data_dir: &str) -> (r:
    Option<Flush<B>>)
    requires
        old(buffers).wf(),
        number_left(old(buffers)@, symbol@),
        date.wf(),
    ensures
        final(buffers).wf(),
        match r {
            Some(flush) => {
                &&& slot(old(buffers)@, symbol@) matches Some(i)
                &&& final(buffers)@ == old(buffers)@.update(i, flushed(old(buffers)@[i]))
                &&& flush.of(old(buffers)@[i], kind, date, data_dir@)
            },
            None => slot(old(buffers)@, symbol@) is None && final(buffers)@ == old(buffers)@,
        },
{
    match buffers.position(symbol) {
        Some(i) => Some(flush_at(buffers, i, kind, date, data_dir)),
        None => None,
    }
}

/// What became of a tick, once a buffer that is due has been emptied.
pub enum Ingested<B> {
    /// Its symbol is not safe, and the tick was dropped.
    Dropped,
    /// It waits in its buffer.
    Waiting,
    /// It filled its buffer, whose rows are on their way to a file.
    Full(Flush<B>),
}

/// The entries after a tick: one with a safe symbol is appended, and a buffer
/// that has reached `max_rows` with it is emptied.
pub open spec fn after_row<R>(
    entries: Seq<EntryModel<R>>,
    symbol: Seq<char>,
    row: R,
    time: Timestamp,
    max_rows: int,
) -> Seq<EntryModel<R>> {
    let held = with_row(entries, symbol, row, time, max_rows);
    if !safe_symbol(symbol) {
        entries
    } else if rows_waiting(held, symbol) >= max_rows {
        match slot(held, symbol) {
            Some(i) => held.update(i, flushed(held[i])),
            None => held,
        }
    } else {
        held
    }
}

/// Whether one more row of a symbol can be taken: where it makes the buffer due,
/// there is a file number left to flush to.
pub open spec fn room_for_row<R>(entries: Seq<EntryModel<R>>, symbol: Seq<char>, max_rows: int) -> bool {
    rows_waiting(entries, symbol) + 1 >= max_rows ==> number_left(entries, symbol)
}

/// Whether one more row of a symbol can be taken.
pub fn can_ingest<B: HotBuf>(buffers: &HotBuffers<B>, symbol: &str, max_rows: usize) -> (r: bool)
    requires
        buffers.wf(),
    ensures
        r == room_for_row(buffers@, symbol@, max_rows as int),
{
    match buffers.get(symbol) {
        Some((buf, next_seq)) => {
            let due: bool = max_rows == 0 || buf.len() >= max_rows - 1;
            !due || next_seq < u32::MAX
        },
        None => true,
    }
}

/// The symbol of a new row has an entry, which is the one it had, with one row
/// more.
pub(crate) proof fn lemma_with_row_slot<R>(
    entries: Seq<EntryModel<R>>,
    symbol: Seq<char>,
    row: R,
    time: Timestamp,
    max_rows: int,
)
    requires
        distinct_symbols(entries),
    ensures
        ({
            let held = with_row(entries, symbol, row, time, max_rows);
            &&& slot(held, symbol) == (match slot(entries, symbol) {
                Some(i) => Some(i),
                None => Some(entries.len() as int),
            })
            &&& number_left(entries, symbol) ==> number_left(held, symbol)
            &&& rows_waiting(held, symbol) == rows_waiting(entries, symbol) + 1
        }),
{
    let held = with_row(entries, symbol, row, time, max_rows);
    lemma_slot(entries, symbol);
    lemma_with_row_symbols(entries, symbol, row, time, max_rows);
    match slot(entries, symbol) {
        Some(i) => lemma_slot_unique(held, symbol, i),
        None => lemma_slot_unique(held, symbol, entries.len() as int),
    }
}

/// Appends a quote to the buffer of its symbol, and takes the rows of a buffer
/// that is due out of it at once. `settle` is to be told whether their file was
/// written.
pub fn ingest_quote(
    buffers: &mut HotBuffers<HotBufQuote>,
    quote: Quote,
    max_rows: usize,
    date: Date,
    data_dir: &str,
) -> (r: Ingested<HotBufQuote>)
    requires
        old(buffers).wf(),
        quote.receive_time.wf(),
        max_rows * 8 <= isize::MAX,
        room_for_row(old(buffers)@, quote.ticker_name@, max_rows as int),
        date.wf(),
    ensures
        final(buffers).wf(),
        final(buffers)@ == after_row(
            old(buffers)@,
            quote.ticker_name@,
            quote_row(quote),
            quote.receive_time,
            max_rows as int,
        ),
        ({
            let symbol = quote.ticker_name@;
            let held = with_row(old(buffers)@, symbol, quote_row(quote), quote.receive_time, max_rows as int);
            match r {
                Ingested::Dropped => !safe_symbol(symbol),
                Ingested::Waiting => safe_symbol(symbol) && rows_waiting(held, symbol) < max_rows,
                Ingested::Full(flush) => {
                    &&& safe_symbol(symbol)
                    &&& rows_waiting(held, symbol) >= max_rows
                    &&& slot(held, symbol) matches Some(i)
                    &&& flush.of(held[i], Kind::Quote, date, data_dir@)
                },
            }
        }),
{
    let symbol: Arc<str> = quote.ticker_name.clone();
    let ghost before = buffers@;
    let ghost row = quote_row(quote);
    let ghost time = quote.receive_time;
    proof {
        buffers.lemma_distinct();
    }
    match buffer_quote(buffers, quote, max_rows) {
        Buffered::Dropped => Ingested::Dropped,
        Buffered::Waiting => Ingested::Waiting,
        Buffered::Full => {
            proof {
                lemma_with_row_slot(before, symbol@, row, time, max_rows as int);
            }
            Ingested::Full(flush(buffers, &*symbol, Kind::Quote, date, data_dir).unwrap())
        },
    }
}

/// Appends a trade to the buffer of its symbol, and takes the rows of a buffer
/// that is due out of it at once. `settle` is to be told whether their file was
/// written.
pub fn ingest_trade(
    buffers: &mut HotBuffers<HotBufTrade>,
    trade: Trade,
    max_rows: usize,
    date: Date,
    data_dir: &str,
) -> (r: Ingested<HotBufTrade>)
    requires
        old(buffers).wf(),
        trade.receive_time.wf(),
        max_rows * 8 <= isize::MAX,
        room_for_row(old(buffers)@, trade.ticker_name@, max_rows as int),
        date.wf(),
    ensures
        final(buffers).wf(),
        final(buffers)@ == after_row(
            old(buffers)@,
            trade.ticker_name@,
            trade_row(trade),
            trade.receive_time,
            max_rows as int,
        ),
        ({
            let symbol = trade.ticker_name@;
            let held = with_row(old(buffers)@, symbol, trade_row(trade), trade.receive_time, max_rows as int);
            match r {
                Ingested::Dropped => !safe_symbol(symbol),
                Ingested::Waiting => safe_symbol(symbol) && rows_waiting(held, symbol) < max_rows,
                Ingested::Full(flush) => {
                    &&& safe_symbol(symbol)
                    &&& rows_waiting(held, symbol) >= max_rows
                    &&& slot(held, symbol) matches Some(i)
                    &&& flush.of(held[i], Kind::Trade, date, data_dir@)
                },
            }
        }),
{
    let symbol: Arc<str> = trade.ticker_name.clone();
    let ghost before = buffers@;
    let ghost row = trade_row(trade);
    let ghost time = trade.receive_time;
    proof {
        buffers.lemma_distinct();
    }
    match buffer_trade(buffers, trade, max_rows) {
        Buffered::Dropped => Ingested::Dropped,
        Buffered::Waiting => Ingested::Waiting,
        Buffered::Full => {
            proof {
                lemma_with_row_slot(before, symbol@, row, time, max_rows as int);
            }
            Ingested::Full(flush(buffers, &*symbol, Kind::Trade, date, data_dir).unwrap())
        },
    }
}

/// Takes up whether the file of a flush was written: a file that was is added to
/// the catalog; the rows of one that was not go back into their buffer, in front
/// of what has arrived since.
pub fn settle<B: HotBuf>(
    buffers: &mut HotBuffers<B>,
    catalog: &mut Catalog,
    flush: Flush<B>,
    kind: Kind,
    date: Date,
    written: bool,
)
    requires
        old(buffers).wf(),
        old(catalog).wf(),
        flush.rows.wf(),
        slot(old(buffers)@, flush.symbol@) matches Some(i) && old(buffers)@[i].room == flush.rows.room()
            && old(buffers)@[i].rows.len() <= column_limit(),
    ensures
        final(buffers).wf(),
        final(catalog).wf(),
        final(catalog).dir() == old(catalog).dir(),
        final(catalog).next_merged() == old(catalog).next_merged(),
        written ==> {
            &&& final(buffers)@ == old(buffers)@
            &&& final(catalog)@ == with_file(
                old(catalog)@,
                PartitionKey { symbol: flush.symbol@, kind, date },
                flush.path@,
            )
        },
        !written ==> {
            &&& slot(old(buffers)@, flush.symbol@) matches Some(i)
            &&& final(buffers)@ == old(buffers)@.update(
                i,
                restored(old(buffers)@[i], flush.rows.rows(), flush.rows.oldest()),
            )
            &&& final(catalog)@ == old(catalog)@
        },
{
    if written {
        catalog.add_file(flush.symbol, kind, date, flush.path);
    } else {
        let i: usize = buffers.position(&*flush.symbol).unwrap();
        buffers.restore_rows(i, flush.rows);
    }
}

/// How much later than `time` it is at `now`, in nanoseconds.
pub open spec fn age(time: Timestamp, now: Timestamp) -> int {
    (now.secs - time.secs) * 1_000_000_000 + now.nanos - time.nanos
}

/// Whether the oldest row of an entry is at least `max_age` seconds old.
pub open spec fn is_stale<R>(entry: EntryModel<R>, now: Timestamp, max_age: int) -> bool {
    entry.rows.len() > 0 && (entry.oldest matches Some(time) && age(time, now) >= max_age * 1_000_000_000)
}

/// The stale entries, in their order.
pub open spec fn stale_entries<R>(entries: Seq<EntryModel<R>>, now: Timestamp, max_age: int) -> Seq<EntryModel<R>>
    decreases entries.len(),
{
    if entries.len() == 0 {
        seq![]
    } else {
        let before = stale_entries(entries.drop_last(), now, max_age);
        if is_stale(entries.last(), now, max_age) {
            before.push(entries.last())
        } else {
            before
        }
    }
}

/// The entries after a sweep: the rows of the stale ones have been taken out.
pub open spec fn swept<R>(entries: Seq<EntryModel<R>>, now: Timestamp, max_age: int) -> Seq<EntryModel<R>> {
    entries.map_values(
        |e: EntryModel<R>|
            if is_stale(e, now, max_age) {
                flushed(e)
            } else {
                e
            },
    )
}

/// Flushes every key whose oldest row has been buffered for at least `max_age`
/// seconds, regardless of row count -- the time backstop for a quiet symbol.
/// Written once against the shared `HotBuf` trait rather than duplicated for
/// quotes and trades separately.
pub fn sweep_stale<B: HotBuf>(
    buffers: &mut HotBuffers<B>,
    now: Timestamp,
    max_age: u64,
    kind: Kind,
    date: Date,
    data_dir: &str,
) -> (flushes: Vec<Flush<B>>)
    requires
        old(buffers).wf(),
        numbers_left(old(buffers)@),
        now.wf(),
        date.wf(),
    ensures
        final(buffers).wf(),
        final(buffers)@ == swept(old(buffers)@, now, max_age as int),
        flushes@.len() == stale_entries(old(buffers)@, now, max_age as int).len(),
        forall|k: int|
            0 <= k < flushes@.len() ==> (#[trigger] flushes@[k]).of(
                stale_entries(old(buffers)@, now, max_age as int)[k],
                kind,
                date,
                data_dir@,
            ),
{
    let mut flushes: Vec<Flush<B>> = Vec::new();
    let n: usize = buffers.symbols();
    let ghost start = buffers@;
    let mut i: usize = 0;
    assert(start.take(0) =~= seq![]);
    while i < n
        invariant
            i <= n,
            n == start.len(),
            start == old(buffers)@,
            buffers.wf(),
            now.wf(),
            date.wf(),
            numbers_left(start),
            buffers@.len() == n,
            forall|j: int| 0 <= j < i ==> #[trigger] buffers@[j] == swept(start, now, max_age as int)[j],
            forall|j: int| i <= j < n ==> #[trigger] buffers@[j] == start[j],
            flushes@.len() == stale_entries(start.take(i as int), now, max_age as int).len(),
            forall|k: int|
                0 <= k < flushes@.len() ==> (#[trigger] flushes@[k]).of(
                    stale_entries(start.take(i as int), now, max_age as int)[k],
                    kind,
                    date,
                    data_dir@,
                ),
        decreases n - i,
    {
        assert(start.take(i + 1).drop_last() =~= start.take(i as int));
        assert(buffers@[i as int] == start[i as int]);
        match buffers.oldest_at(i) {
            Some(time) => {
                let elapsed: i128 = (now.secs as i128 - time.secs as i128) * 1_000_000_000 + now.nanos as i128
                    - time.nanos as i128;
                if elapsed >= max_age as i128 * 1_000_000_000 {
                    let flush: Flush<B> = flush_at(buffers, i, kind, date, data_dir);
                    flushes.push(flush);
                }
            },
            None => {},
        }
        i = i + 1;
    }
    assert(start.take(n as int) =~= start);
    assert(buffers@ =~= swept(start, now, max_age as int));
    flushes
}

/// After a sweep nothing stale is left, and what was not stale is untouched.
pub proof fn nothing_stale_is_left_by_a_sweep<R>(entries: Seq<EntryModel<R>>, now: Timestamp, max_age: int, i: int)
    requires
        0 <= i < entries.len(),
    ensures
        !is_stale(swept(entries, now, max_age)[i], now, max_age),
        !is_stale(entries[i], now, max_age) ==> swept(entries, now, max_age)[i] == entries[i],
        swept(entries, now, max_age)[i].symbol == entries[i].symbol,
{
}

/// Every buffer holds fewer than `max_rows` rows, and every symbol is safe and
/// has one buffer.
pub open spec fn bounded<R>(entries: Seq<EntryModel<R>>, max_rows: int) -> bool {
    &&& distinct_symbols(entries)
    &&& forall|i: int|
        0 <= i < entries.len() ==> (#[trigger] entries[i]).rows.len() < max_rows && safe_symbol(entries[i].symbol)
}

proof fn lemma_after_row_bounded<R>(
    entries: Seq<EntryModel<R>>,
    symbol: Seq<char>,
    row: R,
    time: Timestamp,
    max_rows: int,
)
    requires
        bounded(entries, max_rows),
        max_rows >= 1,
    ensures
        bounded(after_row(entries, symbol, row, time, max_rows), max_rows),
{
    let held = with_row(entries, symbol, row, time, max_rows);
    let after = after_row(entries, symbol, row, time, max_rows);
    lemma_slot(entries, symbol);
    lemma_with_row_symbols(entries, symbol, row, time, max_rows);
    lemma_with_row_slot(entries, symbol, row, time, max_rows);
    if safe_symbol(symbol) {
        let i = slot(held, symbol)->Some_0;
        assert forall|k: int| 0 <= k < after.len() implies (#[trigger] after[k]).symbol == held[k].symbol by {}
        assert forall|k: int| 0 <= k < after.len() implies (#[trigger] after[k]).rows.len() < max_rows
            && safe_symbol(after[k].symbol) by {
            if k != i {
                assert(after[k] == entries[k]);
            }
        }
    }
}

proof fn lemma_swept_bounded<R>(entries: Seq<EntryModel<R>>, now: Timestamp, max_age: int, max_rows: int)
    requires
        bounded(entries, max_rows),
        max_rows >= 1,
    ensures
        bounded(swept(entries, now, max_age), max_rows),
{
    let after = swept(entries, now, max_age);
    assert forall|k: int| 0 <= k < after.len() implies (#[trigger] after[k]).symbol == entries[k].symbol
        && after[k].rows.len() < max_rows && safe_symbol(after[k].symbol) by {
        assert(entries[k].rows.len() < max_rows);
    }
}

/// The hot buffers of both kinds.
#[verifier::ext_equal]
pub struct HotState {
    pub quotes: Seq<EntryModel<QuoteRow>>,
    pub trades: Seq<EntryModel<TradeRow>>,
}

/// What the batcher is woken by.
pub enum StreamEvent {
    /// A tick of the stream.
    Item(Tick),
    /// An error in place of a tick.
    Failed,
    /// The timer of the sweep.
    Sweep(Timestamp),
}

/// The buffers after an event, where every file is written.
pub open spec fn after_event(state: HotState, event: StreamEvent, max_rows: int, max_age: int) -> HotState {
    match event {
        StreamEvent::Item(Tick::Quote(quote)) => HotState {
            quotes: after_row(state.quotes, quote.ticker_name@, quote_row(quote), quote.receive_time, max_rows),
            ..state
        },
        StreamEvent::Item(Tick::Trade(trade)) => HotState {
            trades: after_row(state.trades, trade.ticker_name@, trade_row(trade), trade.receive_time, max_rows),
            ..state
        },
        StreamEvent::Failed => state,
        StreamEvent::Sweep(now) => HotState {
            quotes: swept(state.quotes, now, max_age),
            trades: swept(state.trades, now, max_age),
        },
    }
}

/// The buffers after a stream of events that found them empty, where every file
/// is written.
pub open spec fn after_stream(events: Seq<StreamEvent>, max_rows: int, max_age: int) -> HotState
    decreases events.len(),
{
    if events.len() == 0 {
        HotState { quotes: seq![], trades: seq![] }
    } else {
        after_event(after_stream(events.drop_last(), max_rows, max_age), events.last(), max_rows, max_age)
    }
}

/// Whatever the stream brings, every buffer holds fewer than `max_rows` rows
/// after each event, and every symbol that has one is safe.
pub proof fn buffers_stay_below_their_limit(events: Seq<StreamEvent>, max_rows: int, max_age: int)
    requires
        max_rows >= 1,
    ensures
        bounded(after_stream(events, max_rows, max_age).quotes, max_rows),
        bounded(after_stream(events, max_rows, max_age).trades, max_rows),
    decreases events.len(),
{
    if events.len() > 0 {
        let before = after_stream(events.drop_last(), max_rows, max_age);
        buffers_stay_below_their_limit(events.drop_last(), max_rows, max_age);
        match events.last() {
            StreamEvent::Item(Tick::Quote(quote)) => {
                lemma_after_row_bounded(
                    before.quotes,
                    quote.ticker_name@,
                    quote_row(quote),
                    quote.receive_time,
                    max_rows,
                );
            },
            StreamEvent::Item(Tick::Trade(trade)) => {
                lemma_after_row_bounded(
                    before.trades,
                    trade.ticker_name@,
                    trade_row(trade),
                    trade.receive_time,
                    max_rows,
                );
            },
            StreamEvent::Failed => {},
            StreamEvent::Sweep(now) => {
                lemma_swept_bounded(before.quotes, now, max_age, max_rows);
                lemma_swept_bounded(before.trades, now, max_age, max_rows);
            },
        }
    }
}

/// An error in the stream, and a tick whose symbol is not safe, change no buffer.
pub proof fn refused_item_changes_nothing(state: HotState, event: StreamEvent, max_rows: int, max_age: int)
    requires
        match event {
            StreamEvent::Item(Tick::Quote(quote)) => !safe_symbol(quote.ticker_name@),
            StreamEvent::Item(Tick::Trade(trade)) => !safe_symbol(trade.ticker_name@),
            StreamEvent::Failed => true,
            StreamEvent::Sweep(_) => false,
        },
    ensures
        after_event(state, event, max_rows, max_age) == state,
{
}

/// A flush whose file could not be written loses no row: once its rows are back,
/// the buffer holds them and then what has arrived since, and only the file
/// number has moved on. Where nothing has arrived, the buffer is as it was.
pub proof fn failed_flush_loses_no_row<R>(entry: EntryModel<R>, arrived: Seq<R>, first: Option<Timestamp>)
    requires
        entry.oldest is Some <==> entry.rows.len() > 0,
        first is Some <==> arrived.len() > 0,
    ensures
        ({
            let later = EntryModel { rows: arrived, oldest: first, ..flushed(entry) };
            let back = restored(later, entry.rows, entry.oldest);
            &&& back.rows == entry.rows + arrived
            &&& back.oldest == (if entry.rows.len() > 0 {
                entry.oldest
            } else {
                first
            })
            &&& arrived.len() == 0 ==> back == (EntryModel {
                next_seq: (entry.next_seq + 1) as u32,
                ..entry
            })
        }),
{
    if arrived.len() == 0 {
        assert(entry.rows + arrived =~= entry.rows);
    }
}

impl BatchConfig {
    /// The seconds between two sweeps, which is also the age at which a row is
    /// stale: what is configured, but at least one.
    pub fn flush_interval(&self) -> (secs: u64)
        ensures
            secs == (if self.max_age == 0 { 1 } else { self.max_age as int }),
    {
        if self.max_age == 0 {
            1
        } else {
            self.max_age as u64
        }
    }

    /// The seconds between two passes of the compactor: what is configured, but
    /// at least one.
    pub fn compaction_interval(&self) -> (secs: u64)
        ensures
            secs == (if self.compact_interval == 0 { 1 } else { self.compact_interval as int }),
    {
        if self.compact_interval == 0 {
            1
        } else {
            self.compact_interval as u64
        }
    }

    /// Whether a buffer can have room for `max_rows` rows.
    pub fn has_room(&self) -> (r: bool)
        ensures
            r == (self.max_rows * 8 <= isize::MAX),
    {
        self.max_rows <= isize::MAX as usize / 8
    }
}

} // verus!
