//! Recent rows in memory, one buffer for each symbol.
use vstd::prelude::*;

use crate::store::column::{
    byte_label, byte_values, column_limit, time_label, time_values, word_label, word_values,
    ByteColumn, TimeColumn, WordColumn,
};
use crate::text::text_eq;
use crate::types::{Quote, Trade};
use crate::utils::times::Timestamp;

verus! {

/// The values of a column: times in microseconds since the Unix epoch, prices
/// by their bit patterns, volumes, trade types, or texts.
#[derive(Debug)]
pub enum ColumnData {
    Times(Vec<i64>),
    Prices(Vec<u32>),
    Volumes(Vec<u32>),
    Types(Vec<Option<u8>>),
    Texts(Vec<String>),
}

/// A named column.
#[derive(Debug)]
pub struct FrameColumn {
    pub name: String,
    pub data: ColumnData,
}

/// A table: named columns of equal length.
#[derive(Debug)]
pub struct Frame {
    pub height: usize,
    pub columns: Vec<FrameColumn>,
}

/// The model of a `ColumnData`.
pub enum ColumnModel {
    Times(Seq<i64>),
    Prices(Seq<u32>),
    Volumes(Seq<u32>),
    Types(Seq<Option<u8>>),
    Texts(Seq<Seq<char>>),
}

impl View for ColumnData {
    type V = ColumnModel;

    open spec fn view(&self) -> ColumnModel {
        match *self {
            ColumnData::Times(values) => ColumnModel::Times(values@),
            ColumnData::Prices(values) => ColumnModel::Prices(values@),
            ColumnData::Volumes(values) => ColumnModel::Volumes(values@),
            ColumnData::Types(values) => ColumnModel::Types(values@),
            ColumnData::Texts(values) => ColumnModel::Texts(values@.map_values(|s: String| s@)),
        }
    }
}

impl View for Frame {
    type V = Seq<(Seq<char>, ColumnModel)>;

    open spec fn view(&self) -> Seq<(Seq<char>, ColumnModel)> {
        self.columns@.map_values(|c: FrameColumn| (c.name@, c.data@))
    }
}

/// The first column of this name, from column `i` on.
pub open spec fn column_from(columns: Seq<(Seq<char>, ColumnModel)>, name: Seq<char>, i: int) -> Option<ColumnModel>
    decreases columns.len() - i,
{
    if i >= columns.len() {
        None
    } else if columns[i].0 == name {
        Some(columns[i].1)
    } else {
        column_from(columns, name, i + 1)
    }
}

impl Frame {
    /// The values of the column of this name.
    pub fn column(&self, name: &str) -> (r: Option<&ColumnData>)
        ensures
            match r {
                Some(data) => column_from(self@, name@, 0) == Some(data@),
                None => column_from(self@, name@, 0) is None,
            },
    {
        let mut i: usize = 0;
        while i < self.columns.len()
            invariant
                i <= self.columns@.len(),
                column_from(self@, name@, 0) == column_from(self@, name@, i as int),
            decreases self.columns@.len() - i,
        {
            assert(self@[i as int] == (self.columns@[i as int].name@, self.columns@[i as int].data@));
            if text_eq(self.columns[i].name.as_str(), name) {
                return Some(&self.columns[i].data);
            }
            i = i + 1;
        }
        None
    }
}

/// The column that says of each of `n` rows which symbol it is about.
pub open spec fn symbol_column(symbol: Seq<char>, n: nat) -> (Seq<char>, ColumnModel) {
    ("symbol"@, ColumnModel::Texts(Seq::new(n, |i: int| symbol)))
}

/// A table with a `symbol` column behind its own. The buffers don't carry their
/// own symbol (it's what they are looked up by, not a per-row field), so whoever
/// looks one up stamps it.
pub fn with_symbol(frame: Frame, symbol: &str) -> (stamped: Frame)
    ensures
        stamped@ == frame@.push(symbol_column(symbol@, frame.height as nat)),
        stamped.height == frame.height,
{
    let height: usize = frame.height;
    let mut columns: Vec<FrameColumn> = frame.columns;
    let mut values: Vec<String> = Vec::new();
    let mut i: usize = 0;
    while i < height
        invariant
            i <= height,
            values@.len() == i,
            forall|j: int| 0 <= j < i ==> (#[trigger] values@[j])@ == symbol@,
        decreases height - i,
    {
        values.push(symbol.to_owned());
        i = i + 1;
    }
    assert(values@.map_values(|s: String| s@) =~= Seq::new(height as nat, |i: int| symbol@));
    columns.push(FrameColumn { name: "symbol".to_owned(), data: ColumnData::Texts(values) });
    let stamped = Frame { height, columns };
    assert(stamped@ =~= frame@.push(symbol_column(symbol@, height as nat)));
    stamped
}

/// Shared read/flush surface for the per-symbol hot buffers. `push` stays an
/// inherent method on each concrete type (`Quote` vs `Trade` take different
/// arguments), but everything the batcher's flush-check sweep needs -- "how many
/// rows", "how stale is the oldest one", "hand me a snapshot", "clear on
/// successful flush" -- is the same shape for both.
pub trait HotBuf: Sized {
    /// A buffered row.
    type Row;

    /// The columns are equally long, and the time of the first row is known.
    spec fn wf(&self) -> bool;

    /// The buffered rows, oldest first.
    spec fn rows(&self) -> Seq<Self::Row>;

    /// `receive_time` of the first row.
    spec fn oldest(&self) -> Option<Timestamp>;

    /// The number of rows that a fresh buffer has room for.
    spec fn room(&self) -> int;

    /// Rows as a table.
    spec fn table(rows: Seq<Self::Row>) -> Seq<(Seq<char>, ColumnModel)>;

    fn len(&self) -> (n: usize)
        requires
            self.wf(),
        ensures
            n == self.rows().len(),
    ;

    fn is_empty(&self) -> (r: bool)
        requires
            self.wf(),
        ensures
            r == (self.rows().len() == 0),
    ;

    /// `receive_time` of the oldest buffered row, if any.
    fn oldest_receive_time(&self) -> (r: Option<Timestamp>)
        requires
            self.wf(),
        ensures
            r == self.oldest(),
            r is Some <==> self.rows().len() > 0,
            r matches Some(time) ==> time.wf(),
    ;

    /// Consumes the buffered rows into a table. Takes `self` by value -- call
    /// this on the value `take()` hands you, not on the live buffer, or you'll
    /// lose whatever arrives next while this snapshot is still being written.
    fn to_dataframe(self) -> (frame: Frame)
        requires
            self.wf(),
            self.rows().len() <= column_limit(),
        ensures
            frame@ == Self::table(self.rows()),
            frame.height == self.rows().len(),
    ;

    /// Non-destructive read of the currently buffered rows -- for a live query,
    /// which must never disturb what's still accumulating.
    fn snapshot(&self) -> (frame: Frame)
        requires
            self.wf(),
            self.rows().len() <= column_limit(),
        ensures
            frame@ == Self::table(self.rows()),
            frame.height == self.rows().len(),
    ;

    /// Drops the buffered rows.
    fn clear(&mut self)
        requires
            old(self).wf(),
        ensures
            final(self).wf(),
            final(self).rows() == Seq::<Self::Row>::empty(),
            final(self).oldest() is None,
            final(self).room() == old(self).room(),
    ;

    /// Swaps in a fresh, empty buffer and returns the old one (owned), so the
    /// caller can `to_dataframe()` it while whatever arrives next accumulates in
    /// the replacement.
    fn take(&mut self) -> (taken: Self)
        requires
            old(self).wf(),
        ensures
            taken.wf(),
            taken.rows() == old(self).rows(),
            taken.oldest() == old(self).oldest(),
            taken.room() == old(self).room(),
            final(self).wf(),
            final(self).rows() == Seq::<Self::Row>::empty(),
            final(self).oldest() is None,
            final(self).room() == old(self).room(),
    ;

    /// Puts rows that `take()` handed out back in front of whatever has arrived
    /// since.
    fn restore(&mut self, taken: Self)
        requires
            old(self).wf(),
            taken.wf(),
            old(self).rows().len() <= column_limit(),
            taken.room() == old(self).room(),
        ensures
            final(self).wf(),
            final(self).rows() == taken.rows() + old(self).rows(),
            final(self).oldest() == (if taken.oldest() is Some {
                taken.oldest()
            } else {
                old(self).oldest()
            }),
            final(self).room() == old(self).room(),
    ;
}

/// A buffered quote.
pub struct QuoteRow {
    pub time: i64,
    pub bid_price: u32,
    pub bid_vol: u32,
    pub ask_price: u32,
    pub ask_vol: u32,
}

/// The row that a quote becomes.
pub open spec fn quote_row(quote: Quote) -> QuoteRow {
    QuoteRow {
        time: quote.receive_time.micros() as i64,
        bid_price: quote.bid_price.bits,
        bid_vol: quote.bid_vol,
        ask_price: quote.ask_price.bits,
        ask_vol: quote.ask_vol,
    }
}

/// Quotes as a table.
pub open spec fn quote_table(rows: Seq<QuoteRow>) -> Seq<(Seq<char>, ColumnModel)> {
    seq![
        ("receive_time"@, ColumnModel::Times(rows.map_values(|r: QuoteRow| r.time))),
        ("bid_price"@, ColumnModel::Prices(rows.map_values(|r: QuoteRow| r.bid_price))),
        ("bid_vol"@, ColumnModel::Volumes(rows.map_values(|r: QuoteRow| r.bid_vol))),
        ("ask_price"@, ColumnModel::Prices(rows.map_values(|r: QuoteRow| r.ask_price))),
        ("ask_vol"@, ColumnModel::Volumes(rows.map_values(|r: QuoteRow| r.ask_vol))),
    ]
}

/// The quotes of one symbol.
pub struct HotBufQuote {
    times: TimeColumn,
    bid_prices: WordColumn,
    bid_vols: WordColumn,
    ask_prices: WordColumn,
    ask_vols: WordColumn,
    len: usize,
    oldest_receive_time: Option<Timestamp>,
    capacity: usize,
}

impl HotBufQuote {
    /// An empty buffer with room for `capacity` quotes.
    pub fn new(capacity: usize) -> (buf: Self)
        requires
            capacity * 8 <= isize::MAX,
        ensures
            buf.wf(),
            buf.rows() == Seq::<QuoteRow>::empty(),
            buf.oldest() is None,
            buf.room() == capacity,
    {
        let buf = Self {
            times: TimeColumn::new("receive_time", capacity),
            bid_prices: WordColumn::new("bid_price", capacity),
            bid_vols: WordColumn::new("bid_vol", capacity),
            ask_prices: WordColumn::new("ask_price", capacity),
            ask_vols: WordColumn::new("ask_vol", capacity),
            len: 0,
            oldest_receive_time: None,
            capacity,
        };
        assert(buf.rows() =~= Seq::<QuoteRow>::empty());
        buf
    }

    fn append(&mut self, time: i64, bid_price: u32, bid_vol: u32, ask_price: u32, ask_vol: u32)
        requires
            old(self).columns_wf(),
        ensures
            final(self).columns_wf(),
            final(self).rows() == old(self).rows().push(
                QuoteRow { time, bid_price, bid_vol, ask_price, ask_vol },
            ),
            final(self).oldest_receive_time == old(self).oldest_receive_time,
            final(self).capacity == old(self).capacity,
    {
        self.times.push(time);
        self.bid_prices.push(bid_price);
        self.bid_vols.push(bid_vol);
        self.ask_prices.push(ask_price);
        self.ask_vols.push(ask_vol);
        self.len = self.len + 1;
        assert(self.rows() =~= old(self).rows().push(QuoteRow { time, bid_price, bid_vol, ask_price, ask_vol }));
    }

    /// Appends a quote.
    pub fn push(&mut self, quote: Quote)
        requires
            old(self).wf(),
            quote.receive_time.wf(),
        ensures
            final(self).wf(),
            final(self).rows() == old(self).rows().push(quote_row(quote)),
            final(self).oldest() == (if old(self).oldest() is Some {
                old(self).oldest()
            } else {
                Some(quote.receive_time)
            }),
            final(self).room() == old(self).room(),
    {
        if self.oldest_receive_time.is_none() {
            self.oldest_receive_time = Some(quote.receive_time);
        }
        assert(self.rows() =~= old(self).rows());
        self.append(
            quote.receive_time.timestamp_micros(),
            quote.bid_price.bits,
            quote.bid_vol,
            quote.ask_price.bits,
            quote.ask_vol,
        );
        proof {
            self.lemma_first_row();
            old(self).lemma_first_row();
        }
    }

    /// The columns are equally long and have their names.
    closed spec fn columns_wf(&self) -> bool {
        &&& time_values(self.times).len() == self.len
        &&& word_values(self.bid_prices).len() == self.len
        &&& word_values(self.bid_vols).len() == self.len
        &&& word_values(self.ask_prices).len() == self.len
        &&& word_values(self.ask_vols).len() == self.len
        &&& time_label(self.times) == "receive_time"@
        &&& word_label(self.bid_prices) == "bid_price"@
        &&& word_label(self.bid_vols) == "bid_vol"@
        &&& word_label(self.ask_prices) == "ask_price"@
        &&& word_label(self.ask_vols) == "ask_vol"@
        &&& self.capacity * 8 <= isize::MAX
    }

    fn build_dataframe(
        len: usize,
        times: TimeColumn,
        bid_prices: WordColumn,
        bid_vols: WordColumn,
        ask_prices: WordColumn,
        ask_vols: WordColumn,
    ) -> (frame: Frame)
        requires
            time_values(times).len() <= column_limit(),
            word_values(bid_prices).len() <= column_limit(),
            word_values(bid_vols).len() <= column_limit(),
            word_values(ask_prices).len() <= column_limit(),
            word_values(ask_vols).len() <= column_limit(),
        ensures
            frame.height == len,
            frame@ == seq![
                (time_label(times), ColumnModel::Times(time_values(times))),
                (word_label(bid_prices), ColumnModel::Prices(word_values(bid_prices))),
                (word_label(bid_vols), ColumnModel::Volumes(word_values(bid_vols))),
                (word_label(ask_prices), ColumnModel::Prices(word_values(ask_prices))),
                (word_label(ask_vols), ColumnModel::Volumes(word_values(ask_vols))),
            ],
    {
        let (name, values) = times.finish();
        let receive_time = FrameColumn { name, data: ColumnData::Times(values) };
        let (name, values) = bid_prices.finish();
        let bid_price = FrameColumn { name, data: ColumnData::Prices(values) };
        let (name, values) = bid_vols.finish();
        let bid_vol = FrameColumn { name, data: ColumnData::Volumes(values) };
        let (name, values) = ask_prices.finish();
        let ask_price = FrameColumn { name, data: ColumnData::Prices(values) };
        let (name, values) = ask_vols.finish();
        let ask_vol = FrameColumn { name, data: ColumnData::Volumes(values) };
        let frame = Frame { height: len, columns: vec![receive_time, bid_price, bid_vol, ask_price, ask_vol] };
        assert(frame@ =~= seq![
            (time_label(times), ColumnModel::Times(time_values(times))),
            (word_label(bid_prices), ColumnModel::Prices(word_values(bid_prices))),
            (word_label(bid_vols), ColumnModel::Volumes(word_values(bid_vols))),
            (word_label(ask_prices), ColumnModel::Prices(word_values(ask_prices))),
            (word_label(ask_vols), ColumnModel::Volumes(word_values(ask_vols))),
        ]);
        frame
    }

    proof fn lemma_first_row(&self)
        ensures
            self.rows().len() == self.len,
            self.len > 0 ==> self.rows()[0].time == time_values(self.times)[0],
    {
    }

    proof fn lemma_table(&self)
        requires
            self.columns_wf(),
        ensures
            quote_table(self.rows()) == seq![
                (time_label(self.times), ColumnModel::Times(time_values(self.times))),
                (word_label(self.bid_prices), ColumnModel::Prices(word_values(self.bid_prices))),
                (word_label(self.bid_vols), ColumnModel::Volumes(word_values(self.bid_vols))),
                (word_label(self.ask_prices), ColumnModel::Prices(word_values(self.ask_prices))),
                (word_label(self.ask_vols), ColumnModel::Volumes(word_values(self.ask_vols))),
            ],
    {
        let rows = self.rows();
        assert(rows.map_values(|r: QuoteRow| r.time) =~= time_values(self.times));
        assert(rows.map_values(|r: QuoteRow| r.bid_price) =~= word_values(self.bid_prices));
        assert(rows.map_values(|r: QuoteRow| r.bid_vol) =~= word_values(self.bid_vols));
        assert(rows.map_values(|r: QuoteRow| r.ask_price) =~= word_values(self.ask_prices));
        assert(rows.map_values(|r: QuoteRow| r.ask_vol) =~= word_values(self.ask_vols));
    }
}

impl HotBuf for HotBufQuote {
    type Row = QuoteRow;

    closed spec fn wf(&self) -> bool {
        &&& self.columns_wf()
        &&& self.oldest_receive_time is Some <==> self.len > 0
        &&& self.oldest_receive_time matches Some(time) ==> time.wf() && time.micros() == time_values(self.times)[0]
    }

    closed spec fn rows(&self) -> Seq<QuoteRow> {
        Seq::new(
            self.len as nat,
            |i: int|
                QuoteRow {
                    time: time_values(self.times)[i],
                    bid_price: word_values(self.bid_prices)[i],
                    bid_vol: word_values(self.bid_vols)[i],
                    ask_price: word_values(self.ask_prices)[i],
                    ask_vol: word_values(self.ask_vols)[i],
                },
        )
    }

    closed spec fn oldest(&self) -> Option<Timestamp> {
        self.oldest_receive_time
    }

    closed spec fn room(&self) -> int {
        self.capacity as int
    }

    open spec fn table(rows: Seq<QuoteRow>) -> Seq<(Seq<char>, ColumnModel)> {
        quote_table(rows)
    }

    fn len(&self) -> (n: usize) {
        self.len
    }

    fn is_empty(&self) -> (r: bool) {
        self.len == 0
    }

    fn oldest_receive_time(&self) -> (r: Option<Timestamp>) {
        self.oldest_receive_time
    }

    fn to_dataframe(self) -> (frame: Frame) {
        proof {
            self.lemma_table();
        }
        Self::build_dataframe(
            self.len,
            self.times,
            self.bid_prices,
            self.bid_vols,
            self.ask_prices,
            self.ask_vols,
        )
    }

    fn snapshot(&self) -> (frame: Frame) {
        proof {
            self.lemma_table();
        }
        Self::build_dataframe(
            self.len,
            self.times.dup(),
            self.bid_prices.dup(),
            self.bid_vols.dup(),
            self.ask_prices.dup(),
            self.ask_vols.dup(),
        )
    }

    fn clear(&mut self) {
        *self = HotBufQuote::new(self.capacity);
    }

    fn take(&mut self) -> (taken: Self) {
        let mut other: HotBufQuote = HotBufQuote::new(self.capacity);
        std::mem::swap(self, &mut other);
        other
    }

    fn restore(&mut self, taken: Self) {
        let mut later: HotBufQuote = taken;
        std::mem::swap(self, &mut later);
        let ghost first = self.rows();
        let ghost second = later.rows();
        let n: usize = later.len;
        if self.oldest_receive_time.is_none() {
            self.oldest_receive_time = later.oldest_receive_time;
        }
        let (_, times) = later.times.finish();
        let (_, bid_prices) = later.bid_prices.finish();
        let (_, bid_vols) = later.bid_vols.finish();
        let (_, ask_prices) = later.ask_prices.finish();
        let (_, ask_vols) = later.ask_vols.finish();
        let mut i: usize = 0;
        assert(first + second.take(0) =~= first);
        let ghost start = *self;
        while i < n
            invariant
                i <= n,
                n == second.len(),
                times@.len() == n,
                bid_prices@.len() == n,
                bid_vols@.len() == n,
                ask_prices@.len() == n,
                ask_vols@.len() == n,
                forall|j: int|
                    0 <= j < n ==> #[trigger] second[j] == (QuoteRow {
                        time: times@[j],
                        bid_price: bid_prices@[j],
                        bid_vol: bid_vols@[j],
                        ask_price: ask_prices@[j],
                        ask_vol: ask_vols@[j],
                    }),
                self.columns_wf(),
                self.rows() == first + second.take(i as int),
                self.oldest_receive_time == start.oldest_receive_time,
                self.capacity == start.capacity,
            decreases n - i,
        {
            self.append(times[i], bid_prices[i], bid_vols[i], ask_prices[i], ask_vols[i]);
            assert(second.take(i + 1) =~= second.take(i as int).push(second[i as int]));
            assert(self.rows() =~= first + second.take(i + 1));
            i = i + 1;
        }
        assert(second.take(n as int) =~= second);
        proof {
            self.lemma_first_row();
        }
    }
}

/// A buffered trade.
pub struct TradeRow {
    pub time: i64,
    pub trade_px: u32,
    pub trade_vol: u32,
    pub trd_type: Option<u8>,
}

/// The row that a trade becomes.
pub open spec fn trade_row(trade: Trade) -> TradeRow {
    TradeRow {
        time: trade.receive_time.micros() as i64,
        trade_px: trade.trade_px.bits,
        trade_vol: trade.trade_vol,
        trd_type: trade.trd_type,
    }
}

/// Trades as a table.
pub open spec fn trade_table(rows: Seq<TradeRow>) -> Seq<(Seq<char>, ColumnModel)> {
    seq![
        ("receive_time"@, ColumnModel::Times(rows.map_values(|r: TradeRow| r.time))),
        ("trade_px"@, ColumnModel::Prices(rows.map_values(|r: TradeRow| r.trade_px))),
        ("trade_vol"@, ColumnModel::Volumes(rows.map_values(|r: TradeRow| r.trade_vol))),
        ("trd_type"@, ColumnModel::Types(rows.map_values(|r: TradeRow| r.trd_type))),
    ]
}

/// The trades of one symbol.
pub struct HotBufTrade {
    times: TimeColumn,
    trade_pxs: WordColumn,
    trade_vols: WordColumn,
    trd_types: ByteColumn,
    len: usize,
    oldest_receive_time: Option<Timestamp>,
    capacity: usize,
}

impl HotBufTrade {
    /// An empty buffer with room for `capacity` trades.
    pub fn new(capacity: usize) -> (buf: Self)
        requires
            capacity * 8 <= isize::MAX,
        ensures
            buf.wf(),
            buf.rows() == Seq::<TradeRow>::empty(),
            buf.oldest() is None,
            buf.room() == capacity,
    {
        let buf = Self {
            times: TimeColumn::new("receive_time", capacity),
            trade_pxs: WordColumn::new("trade_px", capacity),
            trade_vols: WordColumn::new("trade_vol", capacity),
            trd_types: ByteColumn::new("trd_type", capacity),
            len: 0,
            oldest_receive_time: None,
            capacity,
        };
        assert(buf.rows() =~= Seq::<TradeRow>::empty());
        buf
    }

    fn append(&mut self, time: i64, trade_px: u32, trade_vol: u32, trd_type: Option<u8>)
        requires
            old(self).columns_wf(),
        ensures
            final(self).columns_wf(),
            final(self).rows() == old(self).rows().push(TradeRow { time, trade_px, trade_vol, trd_type }),
            final(self).oldest_receive_time == old(self).oldest_receive_time,
            final(self).capacity == old(self).capacity,
    {
        self.times.push(time);
        self.trade_pxs.push(trade_px);
        self.trade_vols.push(trade_vol);
        self.trd_types.push(trd_type);
        self.len = self.len + 1;
        assert(self.rows() =~= old(self).rows().push(TradeRow { time, trade_px, trade_vol, trd_type }));
    }

    /// Appends a trade.
    pub fn push(&mut self, trade: Trade)
        requires
            old(self).wf(),
            trade.receive_time.wf(),
        ensures
            final(self).wf(),
            final(self).rows() == old(self).rows().push(trade_row(trade)),
            final(self).oldest() == (if old(self).oldest() is Some {
                old(self).oldest()
            } else {
                Some(trade.receive_time)
            }),
            final(self).room() == old(self).room(),
    {
        if self.oldest_receive_time.is_none() {
            self.oldest_receive_time = Some(trade.receive_time);
        }
        assert(self.rows() =~= old(self).rows());
        self.append(trade.receive_time.timestamp_micros(), trade.trade_px.bits, trade.trade_vol, trade.trd_type);
        proof {
            self.lemma_first_row();
            old(self).lemma_first_row();
        }
    }

    /// The columns are equally long and have their names.
    closed spec fn columns_wf(&self) -> bool {
        &&& time_values(self.times).len() == self.len
        &&& word_values(self.trade_pxs).len() == self.len
        &&& word_values(self.trade_vols).len() == self.len
        &&& byte_values(self.trd_types).len() == self.len
        &&& time_label(self.times) == "receive_time"@
        &&& word_label(self.trade_pxs) == "trade_px"@
        &&& word_label(self.trade_vols) == "trade_vol"@
        &&& byte_label(self.trd_types) == "trd_type"@
        &&& self.capacity * 8 <= isize::MAX
    }

    fn build_dataframe(
        len: usize,
        times: TimeColumn,
        trade_pxs: WordColumn,
        trade_vols: WordColumn,
        trd_types: ByteColumn,
    ) -> (frame: Frame)
        requires
            time_values(times).len() <= column_limit(),
            word_values(trade_pxs).len() <= column_limit(),
            word_values(trade_vols).len() <= column_limit(),
            byte_values(trd_types).len() <= column_limit(),
        ensures
            frame.height == len,
            frame@ == seq![
                (time_label(times), ColumnModel::Times(time_values(times))),
                (word_label(trade_pxs), ColumnModel::Prices(word_values(trade_pxs))),
                (word_label(trade_vols), ColumnModel::Volumes(word_values(trade_vols))),
                (byte_label(trd_types), ColumnModel::Types(byte_values(trd_types))),
            ],
    {
        let (name, values) = times.finish();
        let receive_time = FrameColumn { name, data: ColumnData::Times(values) };
        let (name, values) = trade_pxs.finish();
        let trade_px = FrameColumn { name, data: ColumnData::Prices(values) };
        let (name, values) = trade_vols.finish();
        let trade_vol = FrameColumn { name, data: ColumnData::Volumes(values) };
        let (name, values) = trd_types.finish();
        let trd_type = FrameColumn { name, data: ColumnData::Types(values) };
        let frame = Frame { height: len, columns: vec![receive_time, trade_px, trade_vol, trd_type] };
        assert(frame@ =~= seq![
            (time_label(times), ColumnModel::Times(time_values(times))),
            (word_label(trade_pxs), ColumnModel::Prices(word_values(trade_pxs))),
            (word_label(trade_vols), ColumnModel::Volumes(word_values(trade_vols))),
            (byte_label(trd_types), ColumnModel::Types(byte_values(trd_types))),
        ]);
        frame
    }

    proof fn lemma_first_row(&self)
        ensures
            self.rows().len() == self.len,
            self.len > 0 ==> self.rows()[0].time == time_values(self.times)[0],
    {
    }

    proof fn lemma_table(&self)
        requires
            self.columns_wf(),
        ensures
            trade_table(self.rows()) == seq![
                (time_label(self.times), ColumnModel::Times(time_values(self.times))),
                (word_label(self.trade_pxs), ColumnModel::Prices(word_values(self.trade_pxs))),
                (word_label(self.trade_vols), ColumnModel::Volumes(word_values(self.trade_vols))),
                (byte_label(self.trd_types), ColumnModel::Types(byte_values(self.trd_types))),
            ],
    {
        let rows = self.rows();
        assert(rows.map_values(|r: TradeRow| r.time) =~= time_values(self.times));
        assert(rows.map_values(|r: TradeRow| r.trade_px) =~= word_values(self.trade_pxs));
        assert(rows.map_values(|r: TradeRow| r.trade_vol) =~= word_values(self.trade_vols));
        assert(rows.map_values(|r: TradeRow| r.trd_type) =~= byte_values(self.trd_types));
    }
}

impl HotBuf for HotBufTrade {
    type Row = TradeRow;

    closed spec fn wf(&self) -> bool {
        &&& self.columns_wf()
        &&& self.oldest_receive_time is Some <==> self.len > 0
        &&& self.oldest_receive_time matches Some(time) ==> time.wf() && time.micros() == time_values(self.times)[0]
    }

    closed spec fn rows(&self) -> Seq<TradeRow> {
        Seq::new(
            self.len as nat,
            |i: int|
                TradeRow {
                    time: time_values(self.times)[i],
                    trade_px: word_values(self.trade_pxs)[i],
                    trade_vol: word_values(self.trade_vols)[i],
                    trd_type: byte_values(self.trd_types)[i],
                },
        )
    }

    closed spec fn oldest(&self) -> Option<Timestamp> {
        self.oldest_receive_time
    }

    closed spec fn room(&self) -> int {
        self.capacity as int
    }

    open spec fn table(rows: Seq<TradeRow>) -> Seq<(Seq<char>, ColumnModel)> {
        trade_table(rows)
    }

    fn len(&self) -> (n: usize) {
        self.len
    }

    fn is_empty(&self) -> (r: bool) {
        self.len == 0
    }

    fn oldest_receive_time(&self) -> (r: Option<Timestamp>) {
        self.oldest_receive_time
    }

    fn to_dataframe(self) -> (frame: Frame) {
        proof {
            self.lemma_table();
        }
        Self::build_dataframe(self.len, self.times, self.trade_pxs, self.trade_vols, self.trd_types)
    }

    fn snapshot(&self) -> (frame: Frame) {
        proof {
            self.lemma_table();
        }
        Self::build_dataframe(
            self.len,
            self.times.dup(),
            self.trade_pxs.dup(),
            self.trade_vols.dup(),
            self.trd_types.dup(),
        )
    }

    fn clear(&mut self) {
        *self = HotBufTrade::new(self.capacity);
    }

    fn take(&mut self) -> (taken: Self) {
        let mut other: HotBufTrade = HotBufTrade::new(self.capacity);
        std::mem::swap(self, &mut other);
        other
    }

    fn restore(&mut self, taken: Self) {
        let mut later: HotBufTrade = taken;
        std::mem::swap(self, &mut later);
        let ghost first = self.rows();
        let ghost second = later.rows();
        let n: usize = later.len;
        if self.oldest_receive_time.is_none() {
            self.oldest_receive_time = later.oldest_receive_time;
        }
        let (_, times) = later.times.finish();
        let (_, trade_pxs) = later.trade_pxs.finish();
        let (_, trade_vols) = later.trade_vols.finish();
        let (_, trd_types) = later.trd_types.finish();
        let mut i: usize = 0;
        assert(first + second.take(0) =~= first);
        let ghost start = *self;
        while i < n
            invariant
                i <= n,
                n == second.len(),
                times@.len() == n,
                trade_pxs@.len() == n,
                trade_vols@.len() == n,
                trd_types@.len() == n,
                forall|j: int|
                    0 <= j < n ==> #[trigger] second[j] == (TradeRow {
                        time: times@[j],
                        trade_px: trade_pxs@[j],
                        trade_vol: trade_vols@[j],
                        trd_type: trd_types@[j],
                    }),
                self.columns_wf(),
                self.rows() == first + second.take(i as int),
                self.oldest_receive_time == start.oldest_receive_time,
                self.capacity == start.capacity,
            decreases n - i,
        {
            self.append(times[i], trade_pxs[i], trade_vols[i], trd_types[i]);
            assert(second.take(i + 1) =~= second.take(i as int).push(second[i as int]));
            assert(self.rows() =~= first + second.take(i + 1));
            i = i + 1;
        }
        assert(second.take(n as int) =~= second);
        proof {
            self.lemma_first_row();
        }
    }
}

/// A zero-row, correctly-shaped-and-named table for a kind with truly nothing to
/// show yet -- no cold files, nothing hot either. Used as a query's placeholder
/// in that case so a query that references any real column (including `symbol`,
/// stamped the same way as on buffered rows) still returns an empty result
/// instead of "column not found".
pub fn empty_quote_frame() -> (frame: Frame)
    ensures
        frame@ == quote_table(seq![]).push(("symbol"@, ColumnModel::Texts(seq![]))),
        frame.height == 0,
{
    proof {
        lemma_no_symbols(""@);
    }
    with_symbol(HotBufQuote::new(0).snapshot(), "")
}

/// The same for trades.
pub fn empty_trade_frame() -> (frame: Frame)
    ensures
        frame@ == trade_table(seq![]).push(("symbol"@, ColumnModel::Texts(seq![]))),
        frame.height == 0,
{
    proof {
        lemma_no_symbols(""@);
    }
    with_symbol(HotBufTrade::new(0).snapshot(), "")
}

proof fn lemma_no_symbols(symbol: Seq<char>)
    ensures
        symbol_column(symbol, 0) == ("symbol"@, ColumnModel::Texts(seq![])),
{
    assert(Seq::new(0, |i: int| symbol) =~= seq![]);
}

/// The time that a buffer of quotes reports as its oldest is that of its first
/// row.
pub proof fn oldest_quote_time_is_the_first_rows(buf: HotBufQuote)
    requires
        buf.wf(),
    ensures
        buf.rows().len() > 0 <==> buf.oldest() is Some,
        buf.oldest() matches Some(time) ==> time.micros() == buf.rows()[0].time,
{
    buf.lemma_first_row();
}

/// The time that a buffer of trades reports as its oldest is that of its first
/// row.
pub proof fn oldest_trade_time_is_the_first_rows(buf: HotBufTrade)
    requires
        buf.wf(),
    ensures
        buf.rows().len() > 0 <==> buf.oldest() is Some,
        buf.oldest() matches Some(time) ==> time.micros() == buf.rows()[0].time,
{
    buf.lemma_first_row();
}

} // verus!
