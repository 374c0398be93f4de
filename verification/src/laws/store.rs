//! Rows in memory, and the files that they go to.
use std::sync::Arc;
use vstd::prelude::*;
use vstd::utf8::*;

use crate::store::batcher::{
    after_event, after_row, after_stream, is_stale, lemma_with_row_slot, lemma_with_row_symbols, room_for_row,
    rows_waiting, safe_symbol, stale_entries, swept, verdict, with_row, Buffered, Flush, HotState,
    StreamEvent,
};
use crate::store::catalog::{
    distinct_keys, files_of, in_day_order, in_window, key_models, keys_over, later_from, lemma_later_from,
    lemma_place, lemma_place_unique, lemma_with_file_in_day_order,
    picked_files, place, texts, with_file, with_files, Catalog, Kind, PartitionKey, PartitionModel,
};
use crate::store::column::column_limit;
use crate::store::hot_buf::{
    column_from, quote_row, quote_table, symbol_column, trade_row, trade_table, ColumnModel, HotBuf,
    HotBufQuote, HotBufTrade,
    QuoteRow, TradeRow,
};
use crate::store::hot_buffers::{
    appended, distinct_symbols, flushed, hot_rows, lemma_slot, lemma_slot_unique, number_left, numbers_left, readable,
    restored, slot, EntryModel,
};
use crate::store::paths::{
    below, is_component, joined, lemma_joined_component, lemma_labels_are_components, merged_name,
    output_path, part_name, path_on,
};
use crate::text::decimal;
use crate::types::{Quote, Tick, Trade};
use crate::utils::times::{day_text, Date, Timestamp};

verus! {

/// A symbol is safe exactly where it has one to 32 bytes, each a letter or a
/// digit of ASCII, a dot, an underscore or a hyphen.
pub proof fn safe_symbols_are_plain_tickers(symbol: Seq<char>)
    ensures
        ({
            let bytes = encode_utf8(symbol);
            safe_symbol(symbol) <==> 1 <= bytes.len() <= 32 && forall|i: int|
                0 <= i < bytes.len() ==> {
                    let b = #[trigger] bytes[i];
                    ||| 0x30 <= b <= 0x39
                    ||| 0x41 <= b <= 0x5a
                    ||| 0x61 <= b <= 0x7a
                    ||| b == 0x2d
                    ||| b == 0x2e
                    ||| b == 0x5f
                }
        }),
{
}

/// A buffered quote or trade keeps every value of the tick, and its time in
/// microseconds.
pub proof fn row_keeps_every_value_of_its_tick(quote: Quote, trade: Trade)
    requires
        quote.receive_time.wf(),
        trade.receive_time.wf(),
    ensures
        ({
            let row = quote_row(quote);
            &&& row.time == quote.receive_time.secs * 1_000_000 + quote.receive_time.nanos / 1_000
            &&& row.bid_price == quote.bid_price.bits && row.bid_vol == quote.bid_vol
            &&& row.ask_price == quote.ask_price.bits && row.ask_vol == quote.ask_vol
        }),
        ({
            let row = trade_row(trade);
            &&& row.time == trade.receive_time.secs * 1_000_000 + trade.receive_time.nanos / 1_000
            &&& row.trade_px == trade.trade_px.bits && row.trade_vol == trade.trade_vol
            &&& row.trd_type == trade.trd_type
        }),
{
}

/// The table of quotes has one line for each row, in their order, and a column
/// for each value.
pub proof fn quote_table_has_a_line_for_each_row(rows: Seq<QuoteRow>, i: int)
    ensures
        ({
            let table = quote_table(rows);
            &&& table.len() == 5
            &&& table[0].0 == "receive_time"@ && table[1].0 == "bid_price"@ && table[2].0 == "bid_vol"@
            &&& table[3].0 == "ask_price"@ && table[4].0 == "ask_vol"@
            &&& table[0].1 matches ColumnModel::Times(times) && times.len() == rows.len() && (0 <= i < rows.len()
                ==> times[i] == rows[i].time)
            &&& table[1].1 matches ColumnModel::Prices(bids) && bids.len() == rows.len() && (0 <= i < rows.len()
                ==> bids[i] == rows[i].bid_price)
            &&& table[2].1 matches ColumnModel::Volumes(bid_vols) && bid_vols.len() == rows.len() && (0 <= i < rows.len()
                ==> bid_vols[i] == rows[i].bid_vol)
            &&& table[3].1 matches ColumnModel::Prices(asks) && asks.len() == rows.len() && (0 <= i < rows.len()
                ==> asks[i] == rows[i].ask_price)
            &&& table[4].1 matches ColumnModel::Volumes(ask_vols) && ask_vols.len() == rows.len() && (0 <= i < rows.len()
                ==> ask_vols[i] == rows[i].ask_vol)
        }),
        HotBufQuote::table(rows) == quote_table(rows),
{
}

/// The table of trades has one line for each row, in their order, and a column
/// for each value.
pub proof fn trade_table_has_a_line_for_each_row(rows: Seq<TradeRow>, i: int)
    ensures
        ({
            let table = trade_table(rows);
            &&& table.len() == 4
            &&& table[0].0 == "receive_time"@ && table[1].0 == "trade_px"@ && table[2].0 == "trade_vol"@
            &&& table[3].0 == "trd_type"@
            &&& table[0].1 matches ColumnModel::Times(times) && times.len() == rows.len() && (0 <= i < rows.len()
                ==> times[i] == rows[i].time)
            &&& table[1].1 matches ColumnModel::Prices(prices) && prices.len() == rows.len() && (0 <= i < rows.len()
                ==> prices[i] == rows[i].trade_px)
            &&& table[2].1 matches ColumnModel::Volumes(volumes) && volumes.len() == rows.len() && (0 <= i < rows.len()
                ==> volumes[i] == rows[i].trade_vol)
            &&& table[3].1 matches ColumnModel::Types(types) && types.len() == rows.len() && (0 <= i < rows.len()
                ==> types[i] == rows[i].trd_type)
        }),
        HotBufTrade::table(rows) == trade_table(rows),
{
}

/// The stamp of a table says the symbol once for each row.
pub proof fn stamp_names_the_symbol_of_each_row(symbol: Seq<char>, n: nat, i: int)
    ensures
        symbol_column(symbol, n).0 == "symbol"@,
        symbol_column(symbol, n).1 matches ColumnModel::Texts(stamps) && stamps.len() == n && (0 <= i < n ==> stamps[i]
            == symbol),
{
}

proof fn lemma_column_from(columns: Seq<(Seq<char>, ColumnModel)>, name: Seq<char>, i: int)
    requires
        0 <= i <= columns.len(),
    ensures
        match column_from(columns, name, i) {
            Some(data) => exists|k: int|
                i <= k < columns.len() && #[trigger] columns[k] == (name, data) && forall|j: int|
                    i <= j < k ==> (#[trigger] columns[j]).0 != name,
            None => forall|k: int| i <= k < columns.len() ==> (#[trigger] columns[k]).0 != name,
        },
    decreases columns.len() - i,
{
    if i < columns.len() {
        if columns[i].0 == name {
            assert(columns[i] == (name, columns[i].1));
        } else {
            lemma_column_from(columns, name, i + 1);
            if column_from(columns, name, i + 1) is Some {
                let data = column_from(columns, name, i + 1)->Some_0;
                let k = choose|k: int|
                    i + 1 <= k < columns.len() && #[trigger] columns[k] == (name, data) && forall|j: int|
                        i + 1 <= j < k ==> (#[trigger] columns[j]).0 != name;
                assert(columns[k] == (name, data));
            }
        }
    }
}

/// Looking up a column finds the first of that name.
pub proof fn lookup_finds_the_first_column(columns: Seq<(Seq<char>, ColumnModel)>, name: Seq<char>)
    ensures
        match column_from(columns, name, 0) {
            Some(data) => exists|k: int|
                0 <= k < columns.len() && #[trigger] columns[k] == (name, data) && forall|j: int|
                    0 <= j < k ==> (#[trigger] columns[j]).0 != name,
            None => forall|k: int| 0 <= k < columns.len() ==> (#[trigger] columns[k]).0 != name,
        },
{
    lemma_column_from(columns, name, 0);
}

/// A new row goes to the end of its symbol's buffer, whose oldest row stays the
/// oldest; no other buffer changes; a symbol without a buffer gets one.
pub proof fn row_goes_to_the_end_of_its_buffer<R>(
    entries: Seq<EntryModel<R>>,
    symbol: Seq<char>,
    row: R,
    time: Timestamp,
    max_rows: int,
    i: int,
)
    requires
        distinct_symbols(entries),
    ensures
        ({
            let after = with_row(entries, symbol, row, time, max_rows);
            let held = exists|k: int| 0 <= k < entries.len() && (#[trigger] entries[k]).symbol == symbol;
            &&& after.len() == entries.len() + (if held {
                0int
            } else {
                1
            })
            &&& 0 <= i < entries.len() && entries[i].symbol != symbol ==> after[i] == entries[i]
            &&& 0 <= i < entries.len() && entries[i].symbol == symbol ==> {
                &&& after[i].symbol == symbol
                &&& after[i].rows == entries[i].rows.push(row)
                &&& entries[i].oldest is Some ==> after[i].oldest == entries[i].oldest
                &&& entries[i].oldest is None ==> after[i].oldest == Some(time)
                &&& after[i].room == entries[i].room
                &&& after[i].next_seq == entries[i].next_seq
            }
            &&& !held ==> {
                let new = after[entries.len() as int];
                &&& new.symbol == symbol
                &&& new.rows.len() == 1 && new.rows[0] == row
                &&& new.oldest == Some(time)
                &&& new.room == max_rows
                &&& new.next_seq == 0
            }
        }),
{
    lemma_slot(entries, symbol);
    if 0 <= i < entries.len() && entries[i].symbol == symbol {
        lemma_slot_unique(entries, symbol, i);
    }
    if slot(entries, symbol) is Some {
        assert(entries[slot(entries, symbol)->Some_0].symbol == symbol);
    }
}

/// A tick with an unsafe symbol is dropped; any other waits until its buffer
/// holds `max_rows` rows, and is then due.
pub proof fn buffer_is_due_once_it_is_full<R>(after: Seq<EntryModel<R>>, symbol: Seq<char>, max_rows: int, i: int)
    requires
        distinct_symbols(after),
        0 <= i < after.len(),
        after[i].symbol == symbol,
    ensures
        rows_waiting(after, symbol) == after[i].rows.len(),
        verdict(after, symbol, max_rows) == Buffered::Dropped <==> !safe_symbol(symbol),
        verdict(after, symbol, max_rows) == Buffered::Full <==> safe_symbol(symbol) && after[i].rows.len() >= max_rows,
        verdict(after, symbol, max_rows) == Buffered::Waiting <==> safe_symbol(symbol) && after[i].rows.len()
            < max_rows,
{
    lemma_slot_unique(after, symbol, i);
}

/// Nothing waits for a symbol without a buffer.
pub proof fn nothing_waits_without_a_buffer<R>(entries: Seq<EntryModel<R>>, symbol: Seq<char>, max_rows: int)
    requires
        forall|k: int| 0 <= k < entries.len() ==> (#[trigger] entries[k]).symbol != symbol,
    ensures
        rows_waiting(entries, symbol) == 0,
        hot_rows(entries, symbol) is None,
        readable(entries, symbol),
        number_left(entries, symbol),
        room_for_row(entries, symbol, max_rows),
{
    lemma_slot(entries, symbol);
}

/// What memory holds of a symbol is what its buffer holds.
pub proof fn memory_holds_what_the_buffer_holds<R>(
    entries: Seq<EntryModel<R>>,
    symbol: Seq<char>,
    max_rows: int,
    i: int,
)
    requires
        distinct_symbols(entries),
        0 <= i < entries.len(),
        entries[i].symbol == symbol,
    ensures
        entries[i].rows.len() > 0 ==> hot_rows(entries, symbol) == Some(entries[i].rows),
        entries[i].rows.len() == 0 ==> hot_rows(entries, symbol) is None,
        readable(entries, symbol) <==> entries[i].rows.len() < 0xffff_ffff,
        number_left(entries, symbol) <==> entries[i].next_seq < 0xffff_ffff,
        numbers_left(entries) ==> entries[i].next_seq < 0xffff_ffff,
        room_for_row(entries, symbol, max_rows) <==> entries[i].rows.len() + 1 < max_rows || entries[i].next_seq
            < 0xffff_ffff,
{
    lemma_slot_unique(entries, symbol, i);
}

/// A tick leaves its row in memory, or takes all rows of its buffer out with it
/// once they are `max_rows`; every other buffer stays as it was.
pub proof fn tick_waits_or_empties_its_buffer<R>(
    entries: Seq<EntryModel<R>>,
    symbol: Seq<char>,
    row: R,
    time: Timestamp,
    max_rows: int,
    i: int,
)
    requires
        distinct_symbols(entries),
        0 <= i < entries.len(),
    ensures
        ({
            let after = after_row(entries, symbol, row, time, max_rows);
            &&& !safe_symbol(symbol) ==> after == entries
            &&& entries[i].symbol != symbol ==> after[i] == entries[i]
            &&& safe_symbol(symbol) && entries[i].symbol == symbol && entries[i].rows.len() + 1 < max_rows ==> after[i].rows
                == entries[i].rows.push(row) && after[i].next_seq == entries[i].next_seq
            &&& safe_symbol(symbol) && entries[i].symbol == symbol && entries[i].rows.len() + 1 >= max_rows
                && entries[i].next_seq < 0xffff_ffff ==> after[i].rows.len() == 0 && after[i].next_seq
                == entries[i].next_seq + 1 && after[i].oldest is None
        }),
{
    lemma_with_row_slot(entries, symbol, row, time, max_rows);
    lemma_with_row_symbols(entries, symbol, row, time, max_rows);
    lemma_slot(entries, symbol);
    if entries[i].symbol == symbol {
        lemma_slot_unique(entries, symbol, i);
    }
}

/// A flush empties its buffer and moves on to the next file; rows that come back
/// stand in front of what the buffer holds; an appended row stands behind it. The
/// symbol and the room stay.
pub proof fn buffers_are_emptied_and_refilled<R>(
    entry: EntryModel<R>,
    rows: Seq<R>,
    oldest: Option<Timestamp>,
    row: R,
    time: Timestamp,
)
    ensures
        ({
            let empty = flushed(entry);
            &&& empty.rows.len() == 0 && empty.oldest is None
            &&& empty.symbol == entry.symbol && empty.room == entry.room
            &&& entry.next_seq < 0xffff_ffff ==> empty.next_seq == entry.next_seq + 1
        }),
        ({
            let back = restored(entry, rows, oldest);
            &&& back.rows.len() == rows.len() + entry.rows.len()
            &&& back.rows.take(rows.len() as int) == rows && back.rows.skip(rows.len() as int) == entry.rows
            &&& oldest is Some ==> back.oldest == oldest
            &&& oldest is None ==> back.oldest == entry.oldest
            &&& back.symbol == entry.symbol && back.room == entry.room && back.next_seq == entry.next_seq
        }),
        ({
            let more = appended(entry, row, time);
            &&& more.rows.len() == entry.rows.len() + 1
            &&& more.rows.last() == row && more.rows.drop_last() == entry.rows
            &&& entry.oldest is Some ==> more.oldest == entry.oldest
            &&& entry.oldest is None ==> more.oldest == Some(time)
            &&& more.symbol == entry.symbol && more.room == entry.room && more.next_seq == entry.next_seq
        }),
{
    assert((rows + entry.rows).take(rows.len() as int) =~= rows);
    assert((rows + entry.rows).skip(rows.len() as int) =~= entry.rows);
    assert(entry.rows.push(row).drop_last() =~= entry.rows);
}

/// A sweep takes out the rows of the stale buffers, each once and in their order,
/// and leaves every other buffer as it is.
pub proof fn sweep_takes_each_stale_buffer_once<R>(
    a: Seq<EntryModel<R>>,
    entry: EntryModel<R>,
    b: Seq<EntryModel<R>>,
    now: Timestamp,
    max_age: int,
)
    ensures
        ({
            let stale = entry.rows.len() > 0 && (entry.oldest matches Some(time) && (now.secs - time.secs)
                * 1_000_000_000 + now.nanos - time.nanos >= max_age * 1_000_000_000);
            let all = a + seq![entry] + b;
            &&& stale_entries(all, now, max_age) == stale_entries(a, now, max_age) + (if stale {
                seq![entry]
            } else {
                seq![]
            }) + stale_entries(b, now, max_age)
            &&& swept(all, now, max_age).len() == all.len()
            &&& stale ==> swept(all, now, max_age)[a.len() as int].rows.len() == 0
            &&& !stale ==> swept(all, now, max_age)[a.len() as int] == entry
        }),
        stale_entries(Seq::<EntryModel<R>>::empty(), now, max_age).len() == 0,
{
    lemma_stale_concat(a, seq![entry], now, max_age);
    lemma_stale_concat(a + seq![entry], b, now, max_age);
    assert(seq![entry].drop_last() =~= seq![]);
    assert(stale_entries(Seq::<EntryModel<R>>::empty(), now, max_age) =~= seq![]);
    let one = stale_entries(seq![entry], now, max_age);
    assert(one =~= (if is_stale(entry, now, max_age) {
        seq![entry]
    } else {
        seq![]
    }));
    assert((a + seq![entry] + b)[a.len() as int] == entry);
}

proof fn lemma_stale_concat<R>(a: Seq<EntryModel<R>>, b: Seq<EntryModel<R>>, now: Timestamp, max_age: int)
    ensures
        stale_entries(a + b, now, max_age) == stale_entries(a, now, max_age) + stale_entries(b, now, max_age),
    decreases b.len(),
{
    if b.len() == 0 {
        assert(a + b =~= a);
    } else {
        lemma_stale_concat(a, b.drop_last(), now, max_age);
        assert((a + b).drop_last() =~= a + b.drop_last());
    }
    assert(stale_entries(a + b, now, max_age) =~= stale_entries(a, now, max_age) + stale_entries(b, now, max_age));
}

/// A flush takes all rows of its buffer, to the next file of its symbol.
pub proof fn flush_takes_all_rows<B: HotBuf>(
    flush: Flush<B>,
    entry: EntryModel<B::Row>,
    kind: Kind,
    date: Date,
    data_dir: Seq<char>,
)
    requires
        flush.of(entry, kind, date, data_dir),
    ensures
        flush.rows.rows() == entry.rows,
        flush.rows.oldest() == entry.oldest,
        flush.symbol@ == entry.symbol,
        flush.path@ == output_path(
            data_dir,
            kind,
            entry.symbol,
            "part-"@ + decimal(entry.next_seq as nat) + ".parquet"@,
            date,
        ),
{
}

/// How paths are put together: what stands for itself goes behind a slash, but
/// for one that is there already, and an absolute path takes the place of what is
/// before it.
pub proof fn paths_are_put_together_with_slashes(dir: Seq<char>, name: Seq<char>)
    ensures
        name.len() > 0 && name[0] == '/' ==> joined(dir, name) == name,
        (name.len() == 0 || name[0] != '/') && dir.len() > 0 && dir.last() != '/' ==> joined(dir, name) == dir + seq!['/']
            + name,
        (name.len() == 0 || name[0] != '/') && (dir.len() == 0 || dir.last() == '/') ==> joined(dir, name) == dir + name,
        is_component(name) <==> name.len() > 0 && (forall|i: int| 0 <= i < name.len() ==> #[trigger] name[i] != '/')
            && !(name.len() == 1 && name[0] == '.') && !(name.len() == 2 && name[0] == '.' && name[1] == '.'),
{
    assert(dir.push('/') + name =~= dir + seq!['/'] + name);
    if is_component(name) {
        assert forall|i: int| 0 <= i < name.len() implies #[trigger] name[i] != '/' by {
            if name[i] == '/' {
                assert(name.contains('/'));
            }
        }
        if name.len() == 1 && name[0] == '.' {
            assert(name =~= seq!['.']);
        }
        if name.len() == 2 && name[0] == '.' && name[1] == '.' {
            assert(name =~= seq!['.', '.']);
        }
    }
}

/// The file of a partition lies below the data directory, in a directory for its
/// kind, one for its day, and one for its symbol. Where one of these is no plain
/// name, it is put together with what is before it all the same.
pub proof fn file_lies_in_its_partition(
    dir: Seq<char>,
    kind: Kind,
    day: Seq<char>,
    symbol: Seq<char>,
    name: Seq<char>,
    date: Date,
)
    ensures
        ({
            let label = match kind {
                Kind::Quote => "Quote"@,
                Kind::Trade => "Trade"@,
            };
            let base = if dir.len() == 0 || dir.last() == '/' {
                dir
            } else {
                dir + seq!['/']
            };
            &&& is_component(day) && is_component(symbol) && is_component(name) ==> path_on(dir, kind, day, symbol, name)
                == base + label + seq!['/'] + day + seq!['/'] + symbol + seq!['/'] + name
            &&& path_on(dir, kind, day, symbol, name) == joined(
                joined(joined(joined(dir, label), day), symbol),
                name,
            )
            &&& output_path(dir, kind, symbol, name, date) == path_on(dir, kind, day_text(date.day), symbol, name)
        }),
{
    let label = kind.label();
    let one = joined(dir, label);
    let two = joined(one, day);
    let three = joined(two, symbol);
    lemma_labels_are_components(kind);
    lemma_joined_component(dir, label);
    if is_component(day) && is_component(symbol) && is_component(name) {
        lemma_joined_component(one, day);
        lemma_joined_component(two, symbol);
        lemma_joined_component(three, name);
        let base = if dir.len() == 0 || dir.last() == '/' {
            dir
        } else {
            dir + seq!['/']
        };
        assert(base =~= below(dir));
        assert(path_on(dir, kind, day, symbol, name) =~= base + label + seq!['/'] + day + seq!['/'] + symbol + seq![
            '/',
        ] + name);
    }
}

/// The files of flushes and of merges are numbered.
pub proof fn files_are_numbered(n: nat, catalog: &Catalog, symbol: Seq<char>, kind: Kind, date: Date)
    ensures
        part_name(n) == "part-"@ + decimal(n) + ".parquet"@,
        merged_name(n) == "merged-"@ + decimal(n) + ".parquet"@,
        catalog.merge_target(symbol, kind, date) == output_path(
            catalog.dir(),
            kind,
            symbol,
            "merged-"@ + decimal(catalog.next_merged()) + ".parquet"@,
            date,
        ),
{
}

/// The files of a partition are those that are listed with its key, and a
/// partition that is not listed has none.
pub proof fn files_are_listed_with_their_key(partitions: Seq<PartitionModel>, key: PartitionKey, i: int)
    requires
        distinct_keys(partitions),
    ensures
        0 <= i < partitions.len() && partitions[i].key == key ==> files_of(partitions, key) == partitions[i].files,
        (forall|k: int| 0 <= k < partitions.len() ==> (#[trigger] partitions[k]).key != key) ==> files_of(
            partitions,
            key,
        ).len() == 0,
        distinct_keys(partitions) <==> forall|a: int, b: int|
            0 <= a < partitions.len() && 0 <= b < partitions.len() && (#[trigger] partitions[a]).key == (
            #[trigger] partitions[b]).key ==> a == b,
{
    lemma_place(partitions, key);
    if 0 <= i < partitions.len() && partitions[i].key == key {
        lemma_place_unique(partitions, key, i);
    }
    assert forall|a: int, b: int|
        0 <= a < partitions.len() && 0 <= b < partitions.len() && (#[trigger] partitions[a]).key == (
        #[trigger] partitions[b]).key implies a == b by {
        if a < b {
            assert(partitions[a].key != partitions[b].key);
        } else if b < a {
            assert(partitions[b].key != partitions[a].key);
        }
    }
}

/// The files of all picked partitions are listed, partition by partition, each
/// partition's in their order, and nothing else is.
pub proof fn picked_partitions_are_listed_one_after_another(
    a: Seq<PartitionModel>,
    partition: PartitionModel,
    b: Seq<PartitionModel>,
    pick: spec_fn(PartitionKey) -> bool,
)
    ensures
        picked_files(a + seq![partition] + b, pick) == picked_files(a, pick) + (if pick(partition.key) {
            partition.files
        } else {
            seq![]
        }) + picked_files(b, pick),
        picked_files(seq![], pick).len() == 0,
{
    lemma_picked_concat(a, seq![partition], pick);
    lemma_picked_concat(a + seq![partition], b, pick);
    assert(seq![partition].drop_last() =~= seq![]);
    assert(picked_files(seq![], pick) =~= seq![]);
    assert(picked_files(seq![partition], pick) =~= (if pick(partition.key) {
        partition.files
    } else {
        seq![]
    }));
}

proof fn lemma_picked_concat(a: Seq<PartitionModel>, b: Seq<PartitionModel>, pick: spec_fn(PartitionKey) -> bool)
    ensures
        picked_files(a + b, pick) == picked_files(a, pick) + picked_files(b, pick),
    decreases b.len(),
{
    if b.len() == 0 {
        assert(a + b =~= a);
    } else {
        lemma_picked_concat(a, b.drop_last(), pick);
        assert((a + b).drop_last() =~= a + b.drop_last());
    }
    assert(picked_files(a + b, pick) =~= picked_files(a, pick) + picked_files(b, pick));
}

/// The partitions that are due are listed, each once and in their order.
pub proof fn due_partitions_are_listed_once(
    a: Seq<PartitionModel>,
    partition: PartitionModel,
    b: Seq<PartitionModel>,
    threshold: nat,
)
    ensures
        keys_over(a + seq![partition] + b, threshold) == keys_over(a, threshold) + (if partition.files.len() > threshold {
            seq![partition.key]
        } else {
            seq![]
        }) + keys_over(b, threshold),
        keys_over(seq![], threshold).len() == 0,
{
    lemma_over_concat(a, seq![partition], threshold);
    lemma_over_concat(a + seq![partition], b, threshold);
    assert(seq![partition].drop_last() =~= seq![]);
    assert(keys_over(seq![], threshold) =~= seq![]);
    assert(keys_over(seq![partition], threshold) =~= (if partition.files.len() > threshold {
        seq![partition.key]
    } else {
        seq![]
    }));
}

proof fn lemma_over_concat(a: Seq<PartitionModel>, b: Seq<PartitionModel>, threshold: nat)
    ensures
        keys_over(a + b, threshold) == keys_over(a, threshold) + keys_over(b, threshold),
    decreases b.len(),
{
    if b.len() == 0 {
        assert(a + b =~= a);
    } else {
        lemma_over_concat(a, b.drop_last(), threshold);
        assert((a + b).drop_last() =~= a + b.drop_last());
    }
    assert(keys_over(a + b, threshold) =~= keys_over(a, threshold) + keys_over(b, threshold));
}

/// A window picks the partitions of its symbol and kind, from its first day to
/// its last.
pub proof fn window_picks_its_days(symbol: Seq<char>, kind: Kind, start: Date, end: Date, key: PartitionKey)
    ensures
        in_window(symbol, kind, start, end)(key) <==> key.symbol == symbol && key.kind == kind && key.date.day >= start.day
            && key.date.day <= end.day,
{
}

/// Lists of files and of keys stand for what they hold, one by one.
pub proof fn lists_stand_for_what_they_hold(files: Seq<String>, keys: Seq<(Arc<str>, Kind, Date)>, i: int)
    ensures
        texts(files).len() == files.len(),
        0 <= i < files.len() ==> texts(files)[i] == files[i]@,
        key_models(keys).len() == keys.len(),
        0 <= i < keys.len() ==> key_models(keys)[i].symbol == keys[i].0@ && key_models(keys)[i].kind == keys[i].1
            && key_models(keys)[i].date == keys[i].2,
        column_limit() == 0xffff_fffe,
{
}

/// A file is added to its partition behind the files that are there, and no other
/// partition changes.
pub proof fn file_is_added_to_its_partition(
    partitions: Seq<PartitionModel>,
    key: PartitionKey,
    file: Seq<char>,
    at: int,
    i: int,
)
    requires
        distinct_keys(partitions),
        0 <= at < partitions.len(),
        partitions[at].key == key,
        0 <= i < partitions.len(),
    ensures
        with_file(partitions, key, file).len() == partitions.len(),
        with_file(partitions, key, file)[at].key == key,
        with_file(partitions, key, file)[at].files == partitions[at].files.push(file),
        i != at ==> with_file(partitions, key, file)[i] == partitions[i],
{
    lemma_place_unique(partitions, key, at);
}

/// A file of a new partition comes with it, behind all partitions of its day and
/// of earlier days and in front of all of later days; no other partition changes.
pub proof fn new_partition_is_put_in_day_order(
    partitions: Seq<PartitionModel>,
    key: PartitionKey,
    file: Seq<char>,
) -> (at: int)
    requires
        forall|k: int| 0 <= k < partitions.len() ==> (#[trigger] partitions[k]).key != key,
        forall|a: int, b: int|
            0 <= a < b < partitions.len() ==> (#[trigger] partitions[a]).key.date.day <= (
            #[trigger] partitions[b]).key.date.day,
    ensures
        0 <= at <= partitions.len(),
        with_file(partitions, key, file) == partitions.insert(at, PartitionModel { key, files: seq![file] }),
        forall|a: int| 0 <= a < at ==> (#[trigger] partitions[a]).key.date.day <= key.date.day,
        forall|b: int| at <= b < partitions.len() ==> (#[trigger] partitions[b]).key.date.day > key.date.day,
{
    let at = later_from(partitions, key.date.day, 0);
    lemma_place(partitions, key);
    lemma_later_from(partitions, key.date.day, 0);
    at
}

/// Partitions are in day order where none is before one of an earlier day, and
/// adding a file keeps them so.
pub proof fn partitions_stay_in_day_order(partitions: Seq<PartitionModel>, key: PartitionKey, file: Seq<char>)
    ensures
        in_day_order(partitions) <==> forall|a: int, b: int|
            0 <= a < b < partitions.len() ==> (#[trigger] partitions[a]).key.date.day <= (
            #[trigger] partitions[b]).key.date.day,
        in_day_order(partitions) ==> in_day_order(with_file(partitions, key, file)),
{
    if in_day_order(partitions) {
        lemma_with_file_in_day_order(partitions, key, file);
    }
}

/// Replacing the files of a partition replaces those and nothing else.
pub proof fn files_are_replaced_in_their_partition(
    partitions: Seq<PartitionModel>,
    key: PartitionKey,
    files: Seq<Seq<char>>,
    i: int,
)
    requires
        distinct_keys(partitions),
        0 <= i < partitions.len(),
    ensures
        with_files(partitions, key, files).len() == partitions.len(),
        partitions[i].key == key ==> with_files(partitions, key, files)[i].files == files,
        partitions[i].key != key ==> with_files(partitions, key, files)[i] == partitions[i],
        with_files(partitions, key, files)[i].key == partitions[i].key,
{
    lemma_place(partitions, key);
    if partitions[i].key == key {
        lemma_place_unique(partitions, key, i);
    }
}

/// A merge reads all files of its partition, in their order, and writes the next
/// merged file of that partition.
pub proof fn merge_reads_its_partition(
    catalog: &Catalog,
    key: PartitionKey,
    sources: Seq<Seq<char>>,
    target: Seq<char>,
    i: int,
)
    requires
        catalog.wf(),
        0 <= i < catalog@.len(),
        catalog@[i].key == key,
    ensures
        catalog.plans(key, sources, target) <==> sources.len() > 0 && sources == catalog@[i].files && target == output_path(
            catalog.dir(),
            key.kind,
            key.symbol,
            "merged-"@ + decimal(catalog.next_merged()) + ".parquet"@,
            key.date,
        ),
{
    lemma_place(catalog@, key);
    lemma_place_unique(catalog@, key, i);
}

/// A merge that was written leaves its partition with the merged file alone, every
/// other as it was, and the next number for the next merge; the files that it
/// supersedes are just those that the partition had.
pub proof fn merge_replaces_its_partition(
    catalog: &Catalog,
    key: PartitionKey,
    after: &Catalog,
    superseded: Seq<Seq<char>>,
    i: int,
    k: int,
)
    requires
        catalog.wf(),
        0 <= i < catalog@.len(),
        catalog@[i].key == key,
        0 <= k < catalog@.len(),
        catalog.merges(key, after, superseded),
    ensures
        superseded == catalog@[i].files,
        after@.len() == catalog@.len(),
        after@[i].key == key,
        after@[i].files.len() == 1,
        after@[i].files[0] == output_path(
            catalog.dir(),
            key.kind,
            key.symbol,
            "merged-"@ + decimal(catalog.next_merged()) + ".parquet"@,
            key.date,
        ),
        k != i ==> after@[k] == catalog@[k],
        after.next_merged() == catalog.next_merged() + 1,
{
    lemma_place(catalog@, key);
    lemma_place_unique(catalog@, key, i);
}

/// A tick changes the buffers of its own kind, and only those; an error changes
/// none; a sweep changes both kinds in the same way.
pub proof fn event_changes_the_buffers_of_its_kind(
    state: HotState,
    quote: Quote,
    trade: Trade,
    now: Timestamp,
    max_rows: int,
    max_age: int,
)
    ensures
        after_event(state, StreamEvent::Item(Tick::Quote(quote)), max_rows, max_age).trades == state.trades,
        after_event(state, StreamEvent::Item(Tick::Quote(quote)), max_rows, max_age).quotes == after_row(
            state.quotes,
            quote.ticker_name@,
            quote_row(quote),
            quote.receive_time,
            max_rows,
        ),
        after_event(state, StreamEvent::Item(Tick::Trade(trade)), max_rows, max_age).quotes == state.quotes,
        after_event(state, StreamEvent::Item(Tick::Trade(trade)), max_rows, max_age).trades == after_row(
            state.trades,
            trade.ticker_name@,
            trade_row(trade),
            trade.receive_time,
            max_rows,
        ),
        after_event(state, StreamEvent::Failed, max_rows, max_age) == state,
        after_event(state, StreamEvent::Sweep(now), max_rows, max_age).quotes == swept(state.quotes, now, max_age),
        after_event(state, StreamEvent::Sweep(now), max_rows, max_age).trades == swept(state.trades, now, max_age),
{
}

/// A stream begins with empty buffers, and every event acts on what those before
/// it have left.
pub proof fn events_act_one_after_another(events: Seq<StreamEvent>, event: StreamEvent, max_rows: int, max_age: int)
    ensures
        after_stream(seq![], max_rows, max_age).quotes.len() == 0,
        after_stream(seq![], max_rows, max_age).trades.len() == 0,
        after_stream(events.push(event), max_rows, max_age) == after_event(
            after_stream(events, max_rows, max_age),
            event,
            max_rows,
            max_age,
        ),
{
    assert(events.push(event).drop_last() =~= events);
}

} // verus!
