//! What a query message asks for, and what it reads.
use std::sync::Arc;
use vstd::prelude::*;
use vstd::utf8::*;

use crate::fix::codec::fields_from;
use crate::fix::parser::{parser_stays_in_the_buffer, FixField, FixParser};
use crate::fix::raw_msg::{single_field, single_of, FieldText, RawMessage};
use crate::query::syntax;
use crate::query::syntax::query_type;
use crate::std_text::{debug_text, quoted, shared_text};
use crate::store::catalog::{
    distinct_keys, in_day_order, in_window, later_from, lemma_later_from, lemma_place, picked_files,
    picked_files_are_in_day_order, picked_files_are_those_of_picked_partitions, place, texts,
    with_file, with_files, Catalog, Kind, PartitionKey, PartitionModel,
};
use crate::store::batcher::{lemma_with_row_symbols, with_row};
use crate::store::hot_buf::{
    empty_quote_frame, empty_trade_frame, quote_table, trade_table, ColumnModel, Frame, HotBuf,
    HotBufQuote, HotBufTrade,
};
use crate::store::hot_buffers::{
    distinct_symbols, flushed, hot_lazyframe_for_symbol, hot_rows, lemma_slot, lemma_slot_unique,
    readable, slot, EntryModel, HotBuffers,
};
use crate::text::{decimal, decimal_text, text_eq};
use crate::utils::times::{parse_date, parsed_date, Date, Timestamp, MAX_DAY, MIN_DAY};

verus! {

/// Why a query is rejected.
#[derive(Debug)]
pub enum QueryError {
    /// The type of the query is none that is implemented.
    NotImplemented(String),
    /// The query names no symbol.
    NoSymbol,
    /// The query holds no SQL sentence.
    NoSentence,
    /// A date of the query is malformed: its text, its tag and the reason.
    InvalidDate(String, u32, String),
    /// The window of a query leaves the calendar.
    WindowOutOfRange,
}

/// The model of a `QueryError`.
pub enum QueryFault {
    NotImplemented(Seq<char>),
    NoSymbol,
    NoSentence,
    InvalidDate(Seq<char>, u32, Seq<char>),
    WindowOutOfRange,
}

impl View for QueryError {
    type V = QueryFault;

    open spec fn view(&self) -> QueryFault {
        match *self {
            QueryError::NotImplemented(query_type) => QueryFault::NotImplemented(query_type@),
            QueryError::NoSymbol => QueryFault::NoSymbol,
            QueryError::NoSentence => QueryFault::NoSentence,
            QueryError::InvalidDate(text, tag, reason) => QueryFault::InvalidDate(text@, tag, reason@),
            QueryError::WindowOutOfRange => QueryFault::WindowOutOfRange,
        }
    }
}

/// The readable message of a query error.
pub open spec fn query_message(fault: QueryFault) -> Seq<char> {
    match fault {
        QueryFault::NotImplemented(query_type) =>
            "query type "@ + debug_text(query_type) + " is not implemented yet"@,
        QueryFault::NoSymbol => "query must specify a symbol (tag 1)"@,
        QueryFault::NoSentence => "query must include a SQL sentence (tag 2)"@,
        QueryFault::InvalidDate(text, tag, reason) =>
            "invalid date '"@ + text + "' (tag "@ + decimal(tag as nat) + "), expected YYYY-MM-DD: "@ + reason,
        QueryFault::WindowOutOfRange => "date window out of range"@,
    }
}

impl QueryError {
    /// The readable message.
    pub fn to_string(&self) -> (r: String)
        ensures
            r@ == query_message(self@),
    {
        match self {
            QueryError::NotImplemented(query_type) => {
                let mut r: String = "query type ".to_owned();
                let name: String = quoted(query_type.as_str());
                r.append(name.as_str());
                r.append(" is not implemented yet");
                r
            },
            QueryError::NoSymbol => "query must specify a symbol (tag 1)".to_owned(),
            QueryError::NoSentence => "query must include a SQL sentence (tag 2)".to_owned(),
            QueryError::InvalidDate(text, tag, reason) => {
                let mut r: String = "invalid date '".to_owned();
                r.append(text.as_str());
                r.append("' (tag ");
                let number: String = decimal_text(*tag as u64);
                r.append(number.as_str());
                r.append("), expected YYYY-MM-DD: ");
                r.append(reason.as_str());
                r
            },
            QueryError::WindowOutOfRange => "date window out of range".to_owned(),
        }
    }
}

/// The fields of a query message: those whose values are text.
pub open spec fn text_fields(fields: Seq<(u32, Seq<u8>)>) -> Seq<(u32, FieldText)>
    decreases fields.len(),
{
    if fields.len() == 0 {
        seq![]
    } else {
        let before = text_fields(fields.drop_last());
        match single_field(fields.last().0, fields.last().1) {
            Ok(field) => before.push(field),
            Err(_) => before,
        }
    }
}

/// The fields of a query.
pub open spec fn info_of(query: Seq<char>) -> Seq<(u32, FieldText)> {
    text_fields(fields_from(encode_utf8(query), 0))
}

/// Parses one query message off the wire into its tagged fields (see `syntax`)
/// -- the same `TAG=VALUE<SOH>...` shape that real FIX messages have, reused
/// here rather than inventing a second wire format. A message that isn't
/// well-formed this way (or isn't this format at all) simply yields fewer fields
/// than expected; the specific `extract_*` calls below turn "field missing" into
/// a clear error.
pub fn extract_info(query: &str) -> (info: RawMessage)
    ensures
        info@ == info_of(query@),
{
    let mut parser: FixParser = FixParser::new(query.as_bytes());
    let mut rtn: RawMessage = RawMessage::new(5);
    let ghost data = encode_utf8(query@);
    let ghost all = fields_from(data, 0);
    let ghost mut seen: Seq<(u32, Seq<u8>)> = seq![];
    assert(seen + all =~= all);
    assert(rtn@ =~= text_fields(seen));
    loop
        invariant
            data == encode_utf8(query@),
            all == fields_from(data, 0),
            parser.data() == data,
            0 <= parser.offset() <= data.len(),
            seen + fields_from(data, parser.offset()) == all,
            rtn@ == text_fields(seen),
        decreases data.len() - parser.offset(),
    {
        let ghost pos = parser.offset();
        let ghost rest = fields_from(data, pos);
        proof {
            parser_stays_in_the_buffer(data, pos);
        }
        let field: FixField = match parser.next_field() {
            Some(field) => field,
            None => {
                assert(seen =~= all);
                return rtn;
            },
        };
        let ghost now = seen.push((field.tag, field.value@));
        let _ = rtn.append_single(&field);
        proof {
            assert(now.drop_last() =~= seen);
            assert(now + fields_from(data, parser.offset()) =~= seen + rest);
            seen = now;
        }
    }
}

/// The type of a query. Omitted, it is a plain SQL command.
pub open spec fn query_type_of(info: Seq<(u32, FieldText)>) -> Seq<char> {
    match single_of(info, syntax::QUERY_TYPE) {
        Some(text) => text,
        None => query_type::SQL_CMD@,
    }
}

/// The type of a query.
pub fn extract_query_type(query_info: &RawMessage) -> (r: &str)
    ensures
        r@ == query_type_of(query_info@),
{
    match query_info.single_text(syntax::QUERY_TYPE) {
        Some(text) => text,
        None => query_type::SQL_CMD,
    }
}

/// The symbol of a query.
pub fn extract_symbol(query_info: &RawMessage) -> (r: Result<Arc<str>, QueryError>)
    ensures
        match r {
            Ok(symbol) => single_of(query_info@, syntax::SYMBOL) == Some(symbol@),
            Err(e) => single_of(query_info@, syntax::SYMBOL) is None && e@ == QueryFault::NoSymbol,
        },
{
    match query_info.single_text(syntax::SYMBOL) {
        Some(text) => Ok(shared_text(text)),
        None => Err(QueryError::NoSymbol),
    }
}

/// The SQL sentence of a query.
pub fn extract_sentence(query_info: &RawMessage) -> (r: Result<&str, QueryError>)
    ensures
        match r {
            Ok(sentence) => single_of(query_info@, syntax::SENTENCE) == Some(sentence@),
            Err(e) => single_of(query_info@, syntax::SENTENCE) is None && e@ == QueryFault::NoSentence,
        },
{
    match query_info.single_text(syntax::SENTENCE) {
        Some(text) => Ok(text),
        None => Err(QueryError::NoSentence),
    }
}

/// The date under a tag of a query: none where the tag is missing, and an error
/// where its text is malformed.
pub open spec fn date_of(info: Seq<(u32, FieldText)>, tag: u32) -> Result<Option<Date>, QueryFault> {
    match single_of(info, tag) {
        None => Ok(None),
        Some(text) => match parsed_date(text, "%Y-%m-%d"@) {
            Ok(day) => Ok(Some(Date { day })),
            Err(reason) => Err(QueryFault::InvalidDate(text, tag, reason)),
        },
    }
}

/// The date under a tag of a query.
pub fn extract_date(query_info: &RawMessage, tag: u32) -> (r: Result<Option<Date>, QueryError>)
    ensures
        match r {
            Ok(date) => date_of(query_info@, tag) == Ok::<Option<Date>, QueryFault>(date),
            Err(e) => date_of(query_info@, tag) == Err::<Option<Date>, QueryFault>(e@),
        },
        r matches Ok(Some(date)) ==> date.wf(),
{
    match query_info.single_text(tag) {
        Some(text) => match parse_date(text, "%Y-%m-%d") {
            Ok(day) => Ok(Some(Date { day })),
            Err(reason) => Err(QueryError::InvalidDate(text.to_owned(), tag, reason)),
        },
        None => Ok(None),
    }
}

/// The first and the last day of the window of a query.
pub open spec fn window(start: Option<Date>, end: Option<Date>, today: Date) -> (int, int) {
    match (start, end) {
        (None, None) => (today.day as int, today.day as int),
        (None, Some(end)) => (end.day - 4, end.day as int),
        (Some(start), None) => (start.day as int, start.day + 4),
        (Some(a), Some(b)) => if a.day <= b.day {
            (a.day as int, b.day as int)
        } else {
            (b.day as int, a.day as int)
        },
    }
}

/// Whether the calendar holds the window of a query.
pub open spec fn window_fits(start: Option<Date>, end: Option<Date>, today: Date) -> bool {
    MIN_DAY <= window(start, end, today).0 && window(start, end, today).1 <= MAX_DAY
}

pub open spec fn date_wf(date: Option<Date>) -> bool {
    date matches Some(d) ==> d.wf()
}

/// Resolves the (start, end) date window a query scans, both bounds inclusive,
/// from whatever start_date/end_date were supplied (both, one, or neither) plus
/// the current date:
///
/// - Neither given: just `today`.
/// - Only `end` given: the 5 days up to and including `end`.
/// - Only `start` given: the 5 days from `start` forward.
/// - Both given: exactly as given (no 5-day cap -- that only exists to fill in
///   the missing side of a one-sided window), tolerant of the two being supplied
///   in either order.
pub fn resolve_date_range(start: Option<Date>, end: Option<Date>, today: Date) -> (r: (Date, Date))
    requires
        date_wf(start),
        date_wf(end),
        today.wf(),
        window_fits(start, end, today),
    ensures
        r.0.wf(),
        r.1.wf(),
        r.0.day == window(start, end, today).0,
        r.1.day == window(start, end, today).1,
        (start, end) matches (Some(a), Some(b)) ==> r.0.day <= r.1.day && (r == (a, b) || r == (b, a)),
{
    match (start, end) {
        (None, None) => (today, today),
        (None, Some(end)) => (Date { day: end.day - 4 }, end),
        (Some(start), None) => (start, Date { day: start.day + 4 }),
        (Some(a), Some(b)) => if a.day <= b.day {
            (a, b)
        } else {
            (b, a)
        },
    }
}

/// The window of a query, or `None` where it leaves the calendar.
pub fn try_resolve_date_range(start: Option<Date>, end: Option<Date>, today: Date) -> (r: Option<(Date, Date)>)
    requires
        date_wf(start),
        date_wf(end),
        today.wf(),
    ensures
        match r {
            Some((first, last)) => {
                &&& window_fits(start, end, today)
                &&& first.wf()
                &&& last.wf()
                &&& first.day == window(start, end, today).0
                &&& last.day == window(start, end, today).1
            },
            None => !window_fits(start, end, today),
        },
{
    let fits: bool = match (start, end) {
        (None, Some(end)) => end.day >= MIN_DAY + 4,
        (Some(start), None) => start.day <= MAX_DAY - 4,
        _ => true,
    };
    if fits {
        Some(resolve_date_range(start, end, today))
    } else {
        None
    }
}

/// A query that is ready to run.
pub struct QueryPlan {
    pub symbol: Arc<str>,
    pub sentence: String,
    pub start: Date,
    pub end: Date,
}

/// The model of a `QueryPlan`.
pub struct PlanModel {
    pub symbol: Seq<char>,
    pub sentence: Seq<char>,
    pub start: int,
    pub end: int,
}

impl View for QueryPlan {
    type V = PlanModel;

    open spec fn view(&self) -> PlanModel {
        PlanModel {
            symbol: self.symbol@,
            sentence: self.sentence@,
            start: self.start.day as int,
            end: self.end.day as int,
        }
    }
}

/// What the fields of a query ask for, on a given day, where its dates were read
/// as given. What is wrong first decides the error: the type, the symbol, the
/// sentence, the start, the end.
pub open spec fn plan_with(
    info: Seq<(u32, FieldText)>,
    start: Result<Option<Date>, QueryFault>,
    end: Result<Option<Date>, QueryFault>,
    today: Date,
) -> Result<PlanModel, QueryFault> {
    if query_type_of(info) != query_type::SQL_CMD@ {
        Err(QueryFault::NotImplemented(query_type_of(info)))
    } else {
        match (single_of(info, syntax::SYMBOL), single_of(info, syntax::SENTENCE)) {
            (None, _) => Err(QueryFault::NoSymbol),
            (_, None) => Err(QueryFault::NoSentence),
            (Some(symbol), Some(sentence)) => match (start, end) {
                (Err(fault), _) => Err(fault),
                (_, Err(fault)) => Err(fault),
                (Ok(start), Ok(end)) => if window_fits(start, end, today) {
                    Ok(
                        PlanModel {
                            symbol,
                            sentence,
                            start: window(start, end, today).0,
                            end: window(start, end, today).1,
                        },
                    )
                } else {
                    Err(QueryFault::WindowOutOfRange)
                },
            },
        }
    }
}

/// What the fields of a query ask for, on a given day.
pub open spec fn plan_of(info: Seq<(u32, FieldText)>, today: Date) -> Result<PlanModel, QueryFault> {
    plan_with(info, date_of(info, syntax::STT_DATE), date_of(info, syntax::EDD_DATE), today)
}

/// The model of a date that was read.
pub open spec fn date_model(date: Result<Option<Date>, QueryError>) -> Result<Option<Date>, QueryFault> {
    match date {
        Ok(date) => Ok(date),
        Err(e) => Err(e@),
    }
}

/// Whether a date that was read is one of the calendar.
pub open spec fn read_date_wf(date: Result<Option<Date>, QueryError>) -> bool {
    date matches Ok(date) ==> date_wf(date)
}

/// Puts a query together from its fields and its dates.
pub fn plan_with_dates(
    query_info: &RawMessage,
    start: Result<Option<Date>, QueryError>,
    end: Result<Option<Date>, QueryError>,
    today: Date,
) -> (r: Result<QueryPlan, QueryError>)
    requires
        today.wf(),
        read_date_wf(start),
        read_date_wf(end),
    ensures
        match r {
            Ok(plan) => plan_with(query_info@, date_model(start), date_model(end), today) == Ok::<
                PlanModel,
                QueryFault,
            >(plan@) && plan.start.wf() && plan.end.wf(),
            Err(e) => plan_with(query_info@, date_model(start), date_model(end), today) == Err::<
                PlanModel,
                QueryFault,
            >(e@),
        },
{
    let query_type: &str = extract_query_type(query_info);
    if !text_eq(query_type, query_type::SQL_CMD) {
        return Err(QueryError::NotImplemented(query_type.to_owned()));
    }
    let symbol: Arc<str> = match extract_symbol(query_info) {
        Ok(symbol) => symbol,
        Err(e) => {
            return Err(e);
        },
    };
    let sentence: &str = match extract_sentence(query_info) {
        Ok(sentence) => sentence,
        Err(e) => {
            return Err(e);
        },
    };
    match (start, end) {
        (Ok(start), Ok(end)) => match try_resolve_date_range(start, end, today) {
            Some((start, end)) => Ok(QueryPlan { symbol, sentence: sentence.to_owned(), start, end }),
            None => Err(QueryError::WindowOutOfRange),
        },
        (Err(e), _) => Err(e),
        (_, Err(e)) => Err(e),
    }
}

/// Reads a query message: which symbol and which days it is scoped to, and its
/// SQL sentence.
///
/// Only `query_type::SQL_CMD` is implemented; anything else (e.g. the as-of join
/// type) is rejected clearly rather than silently mishandled.
pub fn plan_query(query: &str, today: Date) -> (r: Result<QueryPlan, QueryError>)
    requires
        today.wf(),
    ensures
        match r {
            Ok(plan) => plan_of(info_of(query@), today) == Ok::<PlanModel, QueryFault>(plan@) && plan.start.wf()
                && plan.end.wf(),
            Err(e) => plan_of(info_of(query@), today) == Err::<PlanModel, QueryFault>(e@),
        },
{
    let query_info: RawMessage = extract_info(query);
    let start: Result<Option<Date>, QueryError> = extract_date(&query_info, syntax::STT_DATE);
    let end: Result<Option<Date>, QueryError> = extract_date(&query_info, syntax::EDD_DATE);
    plan_with_dates(&query_info, start, end, today)
}

/// How the parts that a query reads of one kind make up its table.
#[derive(Debug, Clone, Copy, PartialEq, Eq, Structural)]
pub enum ScanShape {
    /// There are none: the table is empty, with the columns of its kind.
    Empty,
    /// There is one, which is the table.
    Single,
    /// There are several, one after another.
    Union,
}

/// What a query reads of one kind: files, and rows in memory behind them. Every
/// part has a `symbol` column, which the rows in memory carry, and which is
/// stamped on those of the files, so that the query's own `WHERE symbol = '...'`
/// has something to bind against.
pub struct KindScan {
    /// The symbol that the rows of the files are stamped with.
    pub symbol: Arc<str>,
    /// The files, in the order in which they are read.
    pub files: Vec<String>,
    /// The rows in memory, where there are any.
    pub hot: Option<Frame>,
    pub shape: ScanShape,
}

/// The table of a kind of which a query reads nothing.
pub fn placeholder(kind: Kind) -> (frame: Frame)
    ensures
        frame@ == (match kind {
            Kind::Quote => quote_table(seq![]),
            Kind::Trade => trade_table(seq![]),
        }).push(("symbol"@, ColumnModel::Texts(seq![]))),
        frame.height == 0,
{
    match kind {
        Kind::Quote => empty_quote_frame(),
        Kind::Trade => empty_trade_frame(),
    }
}

/// The shape of a scan of so many parts.
pub open spec fn shape_of(parts: nat) -> ScanShape {
    if parts == 0 {
        ScanShape::Empty
    } else if parts == 1 {
        ScanShape::Single
    } else {
        ScanShape::Union
    }
}

impl KindScan {
    /// Whether this is what a query reads of a kind: the files of its symbol in
    /// its window, and what memory holds of its symbol whatever the window, all
    /// of it stamped with the symbol.
    pub open spec fn reads<B: HotBuf>(
        self,
        partitions: Seq<PartitionModel>,
        kind: Kind,
        symbol: Seq<char>,
        start: Date,
        end: Date,
        entries: Seq<EntryModel<B::Row>>,
    ) -> bool {
        &&& self.symbol@ == symbol
        &&& texts(self.files@) == picked_files(partitions, in_window(symbol, kind, start, end))
        &&& match self.hot {
            Some(frame) => hot_rows(entries, symbol) matches Some(rows) && frame.holds::<B>(rows, symbol),
            None => hot_rows(entries, symbol) is None,
        }
        &&& self.shape == shape_of(
            self.files@.len() + (if self.hot is Some {
                1nat
            } else {
                0nat
            }),
        )
    }
}

/// What a query reads of one kind.
pub fn scan_kind<B: HotBuf>(
    catalog: &Catalog,
    kind: Kind,
    symbol: &Arc<str>,
    start: Date,
    end: Date,
    buffers: &HotBuffers<B>,
) -> (scan: KindScan)
    requires
        buffers.wf(),
        readable(buffers@, symbol@),
    ensures
        scan.reads::<B>(catalog@, kind, symbol@, start, end, buffers@),
        scan.shape == ScanShape::Empty <==> scan.files@.len() == 0 && scan.hot is None,
        scan.shape == ScanShape::Union <==> scan.files@.len() + (if scan.hot is Some {
            1int
        } else {
            0
        }) >= 2,
{
    let files: Vec<String> = catalog.files_for_symbol_in_range(symbol, kind, start, end);
    let hot: Option<Frame> = hot_lazyframe_for_symbol(buffers, symbol);
    let shape: ScanShape = if files.len() == 0 {
        if hot.is_none() {
            ScanShape::Empty
        } else {
            ScanShape::Single
        }
    } else if files.len() == 1 && hot.is_none() {
        ScanShape::Single
    } else {
        ScanShape::Union
    };
    KindScan { symbol: symbol.clone(), files, hot, shape }
}

/// What a query reads: `trades` and `quotes`, exactly one symbol's data in its
/// window -- only the files and hot buffer entry for its symbol, never any other
/// symbol's. The hot buffer is always included regardless of the requested date
/// window (it only ever holds today's not-yet-flushed rows, and a query should
/// never lose sight of what's currently live just because it also asked for
/// older history).
pub fn build_context(
    catalog: &Catalog,
    hot_quotes: &HotBuffers<HotBufQuote>,
    hot_trades: &HotBuffers<HotBufTrade>,
    plan: &QueryPlan,
) -> (r: (KindScan, KindScan))
    requires
        hot_quotes.wf(),
        readable(hot_quotes@, plan.symbol@),
        hot_trades.wf(),
        readable(hot_trades@, plan.symbol@),
    ensures
        r.0.reads::<HotBufTrade>(catalog@, Kind::Trade, plan.symbol@, plan.start, plan.end, hot_trades@),
        r.1.reads::<HotBufQuote>(catalog@, Kind::Quote, plan.symbol@, plan.start, plan.end, hot_quotes@),
{
    let trades: KindScan = scan_kind(catalog, Kind::Trade, &plan.symbol, plan.start, plan.end, hot_trades);
    let quotes: KindScan = scan_kind(catalog, Kind::Quote, &plan.symbol, plan.start, plan.end, hot_quotes);
    (trades, quotes)
}

/// The window of a query is never empty. It covers exactly five days where one
/// bound is given, and exactly today where none is.
pub proof fn window_is_as_wide_as_promised(start: Option<Date>, end: Option<Date>, today: Date)
    ensures
        window(start, end, today).0 <= window(start, end, today).1,
        start is None && end is None ==> window(start, end, today) == (today.day as int, today.day as int),
        (start is Some) != (end is Some) ==> window(start, end, today).1 - window(start, end, today).0 + 1 == 5,
        start matches Some(s) ==> window(start, end, today).0 <= s.day <= window(start, end, today).1,
        end matches Some(e) ==> window(start, end, today).0 <= e.day <= window(start, end, today).1,
{
}

/// Two bounds make the same window in either order.
pub proof fn window_takes_bounds_in_either_order(a: Date, b: Date, today: Date)
    ensures
        window(Some(a), Some(b), today) == window(Some(b), Some(a), today),
{
}

/// A row that was just buffered is read by the next query for its symbol, behind
/// what memory held of it before, whatever the window.
pub proof fn buffered_row_is_read<R>(
    entries: Seq<EntryModel<R>>,
    symbol: Seq<char>,
    row: R,
    time: Timestamp,
    max_rows: int,
)
    requires
        distinct_symbols(entries),
    ensures
        hot_rows(with_row(entries, symbol, row, time, max_rows), symbol) == Some(
            (match hot_rows(entries, symbol) {
                Some(rows) => rows,
                None => seq![],
            }).push(row),
        ),
{
    let after = with_row(entries, symbol, row, time, max_rows);
    lemma_with_row_symbols(entries, symbol, row, time, max_rows);
    lemma_slot(entries, symbol);
    match slot(entries, symbol) {
        Some(i) => {
            lemma_slot_unique(after, symbol, i);
            if entries[i].rows.len() == 0 {
                assert(entries[i].rows.push(row) =~= seq![].push(row));
            }
        },
        None => {
            lemma_slot_unique(after, symbol, entries.len() as int);
            assert(seq![row] =~= seq![].push(row));
        },
    }
}

/// A query for one symbol never touches the rows that memory holds of another:
/// what arrives for the other changes nothing of what is read.
pub proof fn rows_of_other_symbols_are_not_read<R>(
    entries: Seq<EntryModel<R>>,
    symbol: Seq<char>,
    other: Seq<char>,
    row: R,
    time: Timestamp,
    max_rows: int,
)
    requires
        distinct_symbols(entries),
        other != symbol,
    ensures
        hot_rows(with_row(entries, other, row, time, max_rows), symbol) == hot_rows(entries, symbol),
{
    let after = with_row(entries, other, row, time, max_rows);
    lemma_with_row_symbols(entries, other, row, time, max_rows);
    lemma_slot(entries, other);
    lemma_slot(entries, symbol);
    lemma_slot(after, symbol);
    match slot(entries, symbol) {
        Some(i) => {
            assert(after[i] == entries[i]);
            lemma_slot_unique(after, symbol, i);
        },
        None => {
            if slot(after, symbol) is Some {
                let k = slot(after, symbol)->Some_0;
                if k < entries.len() {
                    assert(entries[k].symbol == symbol);
                }
            }
        },
    }
}

/// Rows that were taken out for a file are no longer read from memory, so that
/// no query reads them twice.
pub proof fn flushed_rows_leave_memory<R>(entries: Seq<EntryModel<R>>, symbol: Seq<char>)
    requires
        distinct_symbols(entries),
        slot(entries, symbol) is Some,
    ensures
        ({
            let i = slot(entries, symbol)->Some_0;
            hot_rows(entries.update(i, flushed(entries[i])), symbol) is None
        }),
{
    let i = slot(entries, symbol)->Some_0;
    lemma_slot(entries, symbol);
    let after = entries.update(i, flushed(entries[i]));
    assert forall|k: int| 0 <= k < after.len() implies (#[trigger] after[k]).symbol == entries[k].symbol by {}
    lemma_slot_unique(after, symbol, i);
}

/// A file that was just added to the catalog is read by the next query for its
/// symbol whose window holds its date, and by no query for another symbol or
/// whose window does not hold it, unless that query read it before.
pub proof fn added_file_is_read(
    partitions: Seq<PartitionModel>,
    key: PartitionKey,
    file: Seq<char>,
    symbol: Seq<char>,
    kind: Kind,
    start: Date,
    end: Date,
)
    requires
        distinct_keys(partitions),
    ensures
        ({
            let pick = in_window(symbol, kind, start, end);
            picked_files(with_file(partitions, key, file), pick).contains(file) <==> pick(key) || picked_files(
                partitions,
                pick,
            ).contains(file)
        }),
{
    let pick = in_window(symbol, kind, start, end);
    let after = with_file(partitions, key, file);
    picked_files_are_those_of_picked_partitions(partitions, pick, file);
    picked_files_are_those_of_picked_partitions(after, pick, file);
    lemma_place(partitions, key);
    lemma_later_from(partitions, key.date.day, 0);
    let home = match place(partitions, key) {
        Some(i) => i,
        None => later_from(partitions, key.date.day, 0),
    };
    let moved = |i: int| if place(partitions, key) is None && i >= home { i + 1 } else { i };
    assert forall|i: int| 0 <= i < partitions.len() && moved(i) != home implies after[#[trigger] moved(i)]
        == partitions[i] by {}
    assert(after[home].key == key);
    assert(after[home].files.last() == file);
    assert(after[home].files.contains(file));
    if picked_files(after, pick).contains(file) && !pick(key) {
        let i = choose|i: int|
            0 <= i < after.len() && pick((#[trigger] after[i]).key) && after[i].files.contains(file);
        assert(i != home);
        let from: int = if place(partitions, key) is None && i > home {
            i - 1
        } else {
            i
        };
        assert(moved(from) == i);
        assert(partitions[from] == after[i]);
    }
    if picked_files(partitions, pick).contains(file) {
        let i = choose|i: int|
            0 <= i < partitions.len() && pick((#[trigger] partitions[i]).key) && partitions[i].files.contains(file);
        if moved(i) != home {
            assert(after[moved(i)] == partitions[i]);
        }
    }
}

/// Cold files are read in the order of their days: those of the first part of a
/// window stand before those of the rest of it.
pub proof fn cold_files_are_read_in_day_order(
    partitions: Seq<PartitionModel>,
    symbol: Seq<char>,
    kind: Kind,
    start: Date,
    middle: Date,
    next: Date,
    end: Date,
)
    requires
        in_day_order(partitions),
        start.day <= middle.day < next.day <= end.day,
        next.day == middle.day + 1,
    ensures
        picked_files(partitions, in_window(symbol, kind, start, end)) == picked_files(
            partitions,
            in_window(symbol, kind, start, middle),
        ) + picked_files(partitions, in_window(symbol, kind, next, end)),
{
    let pick = in_window(symbol, kind, start, end);
    picked_files_are_in_day_order(partitions, pick, middle.day);
    assert((|k: PartitionKey| pick(k) && k.date.day <= middle.day) =~= in_window(symbol, kind, start, middle));
    assert((|k: PartitionKey| pick(k) && k.date.day > middle.day) =~= in_window(symbol, kind, next, end));
}

/// Once a partition is merged, a query reads the merged file in place of the
/// files that it stands for, and of every other partition the files that it read
/// before.
pub proof fn merged_file_is_read_in_place_of_its_sources(
    partitions: Seq<PartitionModel>,
    key: PartitionKey,
    merged: Seq<char>,
    symbol: Seq<char>,
    kind: Kind,
    start: Date,
    end: Date,
    file: Seq<char>,
)
    requires
        distinct_keys(partitions),
        place(partitions, key) is Some,
    ensures
        ({
            let pick = in_window(symbol, kind, start, end);
            let elsewhere = |k: PartitionKey| pick(k) && k != key;
            picked_files(with_files(partitions, key, seq![merged]), pick).contains(file) <==> (pick(key) && file
                == merged) || picked_files(partitions, elsewhere).contains(file)
        }),
{
    let pick = in_window(symbol, kind, start, end);
    let elsewhere = |k: PartitionKey| pick(k) && k != key;
    let after = with_files(partitions, key, seq![merged]);
    picked_files_are_those_of_picked_partitions(partitions, elsewhere, file);
    picked_files_are_those_of_picked_partitions(after, pick, file);
    lemma_place(partitions, key);
    let home = place(partitions, key)->Some_0;
    assert(after[home].files =~= seq![merged]);
    assert(after[home].files[0] == merged);
    if picked_files(after, pick).contains(file) {
        let i = choose|i: int|
            0 <= i < after.len() && pick((#[trigger] after[i]).key) && after[i].files.contains(file);
        if i != home {
            assert(after[i] == partitions[i]);
            assert(partitions[i].key != key) by {
                if i < home {
                    assert(partitions[i].key != partitions[home].key);
                } else {
                    assert(partitions[home].key != partitions[i].key);
                }
            }
            assert(elsewhere(partitions[i].key));
        }
    }
    if picked_files(partitions, elsewhere).contains(file) {
        let i = choose|i: int|
            0 <= i < partitions.len() && elsewhere((#[trigger] partitions[i]).key) && partitions[i].files.contains(
                file,
            );
        assert(after[i] == partitions[i]);
    }
}

} // verus!
