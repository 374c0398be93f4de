//! What a query asks for, and what it reads.
use vstd::prelude::*;
use vstd::utf8::*;

use crate::fix::codec::fields_from;
use crate::fix::raw_msg::{value_of, FieldText};
use crate::fix::roundtrip::{all_delimiter_free, all_text, as_singles, fields_bytes};
use crate::laws::wire::fields_are_read_one_after_another;
use crate::query::query::{
    date_of, info_of, plan_of, plan_with, query_message, query_type_of, shape_of, text_fields, window,
    window_fits, KindScan, PlanModel, QueryFault, ScanShape,
};
use crate::query::session::{line_text, newline_from, next_query_of, response_text};
use crate::std_text::{debug_text, lossy_text};
use crate::store::catalog::{
    in_window, picked_files, picked_files_are_those_of_picked_partitions, texts, Kind, PartitionModel,
};
use crate::store::hot_buf::{ColumnModel, HotBuf};
use crate::store::hot_buffers::{distinct_symbols, hot_rows, lemma_slot, lemma_slot_unique, EntryModel};
use crate::text::{decimal, trimmed};
use crate::utils::times::{parsed_date, Date};

verus! {

/// Where both bounds of a window are given, it runs from the smaller of the two
/// days to the larger: both lie at its ends, and nothing outside them is in it.
pub proof fn window_runs_between_its_two_bounds(a: Date, b: Date, today: Date)
    ensures
        ({
            let (first, last) = window(Some(a), Some(b), today);
            &&& first <= a.day <= last
            &&& first <= b.day <= last
            &&& first == a.day || first == b.day
            &&& last == a.day || last == b.day
            &&& last - first == (if a.day <= b.day {
                b.day - a.day
            } else {
                a.day - b.day
            })
        }),
{
}

/// A window with one bound begins or ends there, and covers five days; one
/// without bounds is today.
pub proof fn window_fills_in_a_missing_bound(day: Date, today: Date)
    ensures
        ({
            let (first, last) = window(Some(day), None, today);
            first == day.day && last - first == 4
        }),
        ({
            let (first, last) = window(None, Some(day), today);
            last == day.day && last - first == 4
        }),
        ({
            let (first, last) = window(None, None, today);
            first == today.day && last == today.day
        }),
{
}

/// A window fits where the calendar holds its first and its last day.
pub proof fn window_fits_in_the_calendar(start: Option<Date>, end: Option<Date>, today: Date)
    ensures
        window_fits(start, end, today) <==> window(start, end, today).0 >= -95_746_129 && window(start, end, today).1
            <= 95_745_399,
{
}

/// Every part that a query reads is in its table: two or more parts are put
/// together, one part is the table, and only where there is none is the table
/// empty. The parts are its files, and its rows in memory where it has any.
pub proof fn every_part_is_in_the_table<B: HotBuf>(
    scan: KindScan,
    partitions: Seq<PartitionModel>,
    kind: Kind,
    symbol: Seq<char>,
    start: Date,
    end: Date,
    entries: Seq<EntryModel<B::Row>>,
)
    requires
        scan.reads::<B>(partitions, kind, symbol, start, end, entries),
    ensures
        scan.shape == ScanShape::Union <==> scan.files@.len() >= 2 || (scan.files@.len() == 1 && scan.hot is Some),
        scan.shape == ScanShape::Single <==> (scan.files@.len() == 1 && scan.hot is None) || (scan.files@.len() == 0
            && scan.hot is Some),
        scan.shape == ScanShape::Empty <==> scan.files@.len() == 0 && scan.hot is None,
{
}

/// The shape of a scan goes by the number of its parts.
pub proof fn shape_goes_by_the_number_of_parts(parts: nat)
    ensures
        shape_of(parts) == ScanShape::Empty <==> parts == 0,
        shape_of(parts) == ScanShape::Single <==> parts == 1,
        shape_of(parts) == ScanShape::Union <==> parts > 1,
{
}

/// A query reads a file exactly where it is one of its symbol and kind, on a day
/// from the first to the last of its window.
pub proof fn query_reads_the_files_of_its_window<B: HotBuf>(
    scan: KindScan,
    partitions: Seq<PartitionModel>,
    kind: Kind,
    symbol: Seq<char>,
    start: Date,
    end: Date,
    entries: Seq<EntryModel<B::Row>>,
    file: Seq<char>,
)
    requires
        scan.reads::<B>(partitions, kind, symbol, start, end, entries),
    ensures
        scan.symbol@ == symbol,
        scan.files@.len() == picked_files(partitions, in_window(symbol, kind, start, end)).len(),
        forall|k: int|
            0 <= k < scan.files@.len() ==> (#[trigger] scan.files@[k])@ == picked_files(
                partitions,
                in_window(symbol, kind, start, end),
            )[k],
        (exists|k: int| 0 <= k < scan.files@.len() && (#[trigger] scan.files@[k])@ == file) <==> exists|i: int|
            0 <= i < partitions.len() && (#[trigger] partitions[i]).key.symbol == symbol && partitions[i].key.kind == kind
                && start.day <= partitions[i].key.date.day <= end.day && partitions[i].files.contains(file),
{
    let pick = in_window(symbol, kind, start, end);
    let all = texts(scan.files@);
    picked_files_are_those_of_picked_partitions(partitions, pick, file);
    assert forall|k: int| 0 <= k < scan.files@.len() implies (#[trigger] scan.files@[k])@ == picked_files(
        partitions,
        pick,
    )[k] by {
        assert(all[k] == scan.files@[k]@);
    }
    if exists|k: int| 0 <= k < scan.files@.len() && (#[trigger] scan.files@[k])@ == file {
        let k = choose|k: int| 0 <= k < scan.files@.len() && (#[trigger] scan.files@[k])@ == file;
        assert(all[k] == file);
        assert(all.contains(file));
        let i = choose|i: int|
            0 <= i < partitions.len() && pick((#[trigger] partitions[i]).key) && partitions[i].files.contains(file);
        assert(partitions[i].files.contains(file));
    }
    if exists|i: int|
        0 <= i < partitions.len() && (#[trigger] partitions[i]).key.symbol == symbol && partitions[i].key.kind == kind
            && start.day <= partitions[i].key.date.day <= end.day && partitions[i].files.contains(file) {
        let i = choose|i: int|
            0 <= i < partitions.len() && (#[trigger] partitions[i]).key.symbol == symbol && partitions[i].key.kind
                == kind && start.day <= partitions[i].key.date.day <= end.day && partitions[i].files.contains(file);
        assert(pick(partitions[i].key));
        let k = choose|k: int| 0 <= k < all.len() && all[k] == file;
        assert(scan.files@[k]@ == file);
    }
}

/// A query reads from memory all rows of its symbol, stamped with the symbol, and
/// nothing where memory holds none.
pub proof fn query_reads_its_rows_in_memory<B: HotBuf>(
    scan: KindScan,
    partitions: Seq<PartitionModel>,
    kind: Kind,
    symbol: Seq<char>,
    start: Date,
    end: Date,
    entries: Seq<EntryModel<B::Row>>,
    i: int,
)
    requires
        scan.reads::<B>(partitions, kind, symbol, start, end, entries),
        distinct_symbols(entries),
    ensures
        0 <= i < entries.len() && entries[i].symbol == symbol && entries[i].rows.len() > 0 ==> (
        scan.hot matches Some(frame) && frame.height == entries[i].rows.len() && frame@.len() == B::table(
            entries[i].rows,
        ).len() + 1 && frame@.drop_last() == B::table(entries[i].rows) && frame@.last().0 == "symbol"@ && (
        frame@.last().1 matches ColumnModel::Texts(stamps) && stamps.len() == frame.height && forall|k: int|
            0 <= k < stamps.len() ==> #[trigger] stamps[k] == symbol)),
        (forall|k: int|
            0 <= k < entries.len() && (#[trigger] entries[k]).symbol == symbol ==> entries[k].rows.len() == 0)
            ==> scan.hot is None,
{
    lemma_slot(entries, symbol);
    if 0 <= i < entries.len() && entries[i].symbol == symbol && entries[i].rows.len() > 0 {
        lemma_slot_unique(entries, symbol, i);
        let rows = entries[i].rows;
        assert(hot_rows(entries, symbol) == Some(rows));
        if let Some(frame) = scan.hot {
            assert(frame@.drop_last() =~= B::table(rows));
        }
    }
}

/// The text under a tag of a query.
pub open spec fn text_at(info: Seq<(u32, FieldText)>, tag: u32, text: Seq<char>) -> bool {
    value_of(info, tag) == Some(FieldText::Single(text))
}

/// A query without a type, or of the type of plain SQL, that names a symbol and a
/// sentence is planned: for that symbol and that sentence, on the days of its
/// window.
pub proof fn query_is_planned_as_it_asks(
    info: Seq<(u32, FieldText)>,
    symbol: Seq<char>,
    sentence: Seq<char>,
    start: Option<Date>,
    end: Option<Date>,
    today: Date,
)
    requires
        text_at(info, 0, "0"@) || !(value_of(info, 0) matches Some(FieldText::Single(_))),
        text_at(info, 1, symbol),
        text_at(info, 2, sentence),
    ensures
        match plan_with(info, Ok(start), Ok(end), today) {
            Ok(plan) => {
                &&& window_fits(start, end, today)
                &&& plan.symbol == symbol
                &&& plan.sentence == sentence
                &&& (plan.start, plan.end) == window(start, end, today)
            },
            Err(fault) => !window_fits(start, end, today) && fault == QueryFault::WindowOutOfRange,
        },
{
}

/// A query of another type, without a symbol or a sentence, or with a date that
/// cannot be read is refused; what comes first in this order decides.
pub proof fn query_with_a_gap_is_refused(
    info: Seq<(u32, FieldText)>,
    kind: Seq<char>,
    start: Result<Option<Date>, QueryFault>,
    end: Result<Option<Date>, QueryFault>,
    today: Date,
)
    ensures
        ({
            let plain = text_at(info, 0, "0"@) || !(value_of(info, 0) matches Some(FieldText::Single(_)));
            let named = value_of(info, 1) matches Some(FieldText::Single(_));
            let spoken = value_of(info, 2) matches Some(FieldText::Single(_));
            let plan = plan_with(info, start, end, today);
            &&& text_at(info, 0, kind) && kind != "0"@ ==> plan == Err::<PlanModel, QueryFault>(
                QueryFault::NotImplemented(kind),
            )
            &&& plain && !named ==> plan == Err::<PlanModel, QueryFault>(QueryFault::NoSymbol)
            &&& plain && named && !spoken ==> plan == Err::<PlanModel, QueryFault>(QueryFault::NoSentence)
            &&& plain && named && spoken ==> (start matches Err(fault) ==> plan == Err::<PlanModel, QueryFault>(fault))
            &&& plain && named && spoken && start is Ok ==> (end matches Err(fault) ==> plan == Err::<
                PlanModel,
                QueryFault,
            >(fault))
        }),
{
}

/// The dates of a query stand under tags 3 and 4, written as year, month and day;
/// a missing one is none, and a malformed one is an error that quotes it.
pub proof fn dates_of_a_query(info: Seq<(u32, FieldText)>, tag: u32, text: Seq<char>, today: Date)
    ensures
        plan_of(info, today) == plan_with(info, date_of(info, 3), date_of(info, 4), today),
        !(value_of(info, tag) matches Some(FieldText::Single(_))) ==> date_of(info, tag) == Ok::<
            Option<Date>,
            QueryFault,
        >(None),
        text_at(info, tag, text) ==> match parsed_date(text, "%Y-%m-%d"@) {
            Ok(day) => date_of(info, tag) == Ok::<Option<Date>, QueryFault>(Some(Date { day })),
            Err(reason) => date_of(info, tag) == Err::<Option<Date>, QueryFault>(
                QueryFault::InvalidDate(text, tag, reason),
            ),
        },
        text_at(info, 0, text) ==> query_type_of(info) == text,
{
}

proof fn lemma_text_fields(fields: Seq<(u32, Seq<u8>)>)
    requires
        all_text(fields),
    ensures
        text_fields(fields) == as_singles(fields),
    decreases fields.len(),
{
    if fields.len() == 0 {
        assert(as_singles(fields) =~= seq![]);
    } else {
        let before = fields.drop_last();
        assert forall|i: int| 0 <= i < before.len() implies valid_utf8(#[trigger] before[i].1) by {
            assert(before[i] == fields[i]);
        }
        lemma_text_fields(before);
        assert(valid_utf8(fields[fields.len() - 1].1));
        assert(as_singles(fields) =~= as_singles(before).push(
            (fields.last().0, FieldText::Single(decode_utf8(fields.last().1))),
        ));
    }
}

/// A query message has just the fields that its sender wrote, in their order.
pub proof fn query_has_the_fields_that_were_sent(query: Seq<char>, fields: Seq<(u32, Seq<u8>)>)
    requires
        encode_utf8(query) == fields_bytes(fields),
        all_delimiter_free(fields),
        all_text(fields),
    ensures
        info_of(query).len() == fields.len(),
        forall|i: int|
            0 <= i < fields.len() ==> #[trigger] info_of(query)[i] == (
                fields[i].0,
                FieldText::Single(decode_utf8(fields[i].1)),
            ),
{
    fields_are_read_one_after_another(seq![], (0u32, seq![]), fields);
    lemma_text_fields(fields);
}

/// A field of a query that is not text is passed over, and no other is.
pub proof fn only_fields_that_are_no_text_are_passed_over(
    fields: Seq<(u32, Seq<u8>)>,
    tag: u32,
    value: Seq<u8>,
    query: Seq<char>,
)
    ensures
        text_fields(seq![]).len() == 0,
        valid_utf8(value) ==> text_fields(fields.push((tag, value))) == text_fields(fields).push(
            (tag, FieldText::Single(decode_utf8(value))),
        ),
        !valid_utf8(value) ==> text_fields(fields.push((tag, value))) == text_fields(fields),
        info_of(query) == text_fields(fields_from(encode_utf8(query), 0)),
{
    assert(fields.push((tag, value)).drop_last() =~= fields);
}

/// Every refusal says what is missing or wrong, with the text that it is about.
pub proof fn refusals_say_what_is_wrong(text: Seq<char>, tag: u32, reason: Seq<char>)
    ensures
        query_message(QueryFault::NotImplemented(text)) == "query type "@ + debug_text(text)
            + " is not implemented yet"@,
        query_message(QueryFault::InvalidDate(text, tag, reason)) == "invalid date '"@ + text + "' (tag "@ + decimal(
            tag as nat,
        ) + "), expected YYYY-MM-DD: "@ + reason,
{
}

proof fn lemma_newline(bytes: Seq<u8>, i: int)
    requires
        0 <= i <= bytes.len(),
    ensures
        match newline_from(bytes, i) {
            Some(pos) => i <= pos < bytes.len() && bytes[pos] == 0x0a && forall|k: int|
                i <= k < pos ==> #[trigger] bytes[k] != 0x0a,
            None => forall|k: int| i <= k < bytes.len() ==> #[trigger] bytes[k] != 0x0a,
        },
    decreases bytes.len() - i,
{
    if i < bytes.len() && bytes[i] != 0x0a {
        lemma_newline(bytes, i + 1);
    }
}

/// A line ends at the first newline, and none has arrived where there is none.
pub proof fn line_ends_at_the_first_newline(bytes: Seq<u8>)
    ensures
        match newline_from(bytes, 0) {
            Some(pos) => 0 <= pos < bytes.len() && bytes[pos] == 0x0a && forall|k: int|
                0 <= k < pos ==> #[trigger] bytes[k] != 0x0a,
            None => forall|k: int| 0 <= k < bytes.len() ==> #[trigger] bytes[k] != 0x0a,
        },
{
    lemma_newline(bytes, 0);
}

/// The next query is the first line that is not blank; blank lines in front of it
/// are passed over, what stands behind it stays, and an unfinished line is left
/// as it is.
pub proof fn next_query_is_the_first_line_with_text(line: Seq<u8>, rest: Seq<u8>)
    requires
        forall|k: int| 0 <= k < line.len() ==> #[trigger] line[k] != 0x0a,
    ensures
        trimmed(lossy_text(line)).len() > 0 ==> next_query_of(line.push(0x0a) + rest) == (
            Some(trimmed(lossy_text(line))),
            rest,
        ),
        trimmed(lossy_text(line)).len() == 0 ==> next_query_of(line.push(0x0a) + rest) == next_query_of(rest),
        next_query_of(line) == (None::<Seq<char>>, line),
        line_text(line) == trimmed(lossy_text(line)),
{
    let all = line.push(0x0a) + rest;
    let n = line.len() as int;
    lemma_newline(all, 0);
    lemma_newline(line, 0);
    assert(all[n] == 0x0a);
    assert forall|k: int| 0 <= k < n implies #[trigger] all[k] != 0x0a by {
        assert(all[k] == line[k]);
    }
    assert(newline_from(all, 0) == Some(n));
    assert(all.take(n) =~= line);
    assert(all.skip(n + 1) =~= rest);
}

/// A response is the rows, or the error in a line of its own, and then the line
/// that ends it.
pub proof fn response_ends_with_its_marker(text: Seq<char>)
    ensures
        response_text(Ok(text)) == text + "--END--\n"@,
        response_text(Err(text)) == "ERROR: "@ + text + "\n"@ + "--END--\n"@,
{
}

} // verus!
