//! The buffers of all symbols of one kind.
use std::sync::Arc;
use vstd::prelude::*;

use crate::store::column::column_limit;
use crate::store::hot_buf::{
    quote_row, symbol_column, trade_row, with_symbol, Frame, HotBuf, HotBufQuote, HotBufTrade,
};
use crate::text::text_eq;
use crate::types::{Quote, Trade};
use crate::utils::times::Timestamp;

verus! {

/// One symbol, its buffer, and the number of the next file that its rows go to.
pub struct HotEntry<B> {
    pub symbol: Arc<str>,
    pub buf: B,
    pub next_seq: u32,
}

/// The buffers of all symbols of one kind.
pub struct HotBuffers<B> {
    pub(crate) entries: Vec<HotEntry<B>>,
}

/// The model of a `HotEntry`.
#[verifier::ext_equal]
pub struct EntryModel<R> {
    pub symbol: Seq<char>,
    pub rows: Seq<R>,
    pub oldest: Option<Timestamp>,
    pub room: int,
    pub next_seq: u32,
}

/// The model of one entry.
pub open spec fn entry_model<B: HotBuf>(entry: HotEntry<B>) -> EntryModel<B::Row> {
    EntryModel {
        symbol: entry.symbol@,
        rows: entry.buf.rows(),
        oldest: entry.buf.oldest(),
        room: entry.buf.room(),
        next_seq: entry.next_seq,
    }
}

/// The place of a symbol among the entries, from place `i` on.
pub open spec fn slot_from<R>(entries: Seq<EntryModel<R>>, symbol: Seq<char>, i: int) -> Option<int>
    decreases entries.len() - i,
{
    if i >= entries.len() {
        None
    } else if entries[i].symbol == symbol {
        Some(i)
    } else {
        slot_from(entries, symbol, i + 1)
    }
}

/// The place of a symbol among the entries.
pub open spec fn slot<R>(entries: Seq<EntryModel<R>>, symbol: Seq<char>) -> Option<int> {
    slot_from(entries, symbol, 0)
}

/// No symbol has two entries.
pub open spec fn distinct_symbols<R>(entries: Seq<EntryModel<R>>) -> bool {
    forall|i: int, j: int|
        0 <= i < j < entries.len() ==> (#[trigger] entries[i]).symbol != (#[trigger] entries[j]).symbol
}

proof fn lemma_slot_from<R>(entries: Seq<EntryModel<R>>, symbol: Seq<char>, i: int)
    requires
        0 <= i <= entries.len(),
    ensures
        match slot_from(entries, symbol, i) {
            Some(k) => i <= k < entries.len() && entries[k].symbol == symbol,
            None => forall|k: int| i <= k < entries.len() ==> (#[trigger] entries[k]).symbol != symbol,
        },
    decreases entries.len() - i,
{
    if i < entries.len() {
        lemma_slot_from(entries, symbol, i + 1);
    }
}

/// A symbol's place holds that symbol, and a symbol without a place is nowhere.
pub proof fn lemma_slot<R>(entries: Seq<EntryModel<R>>, symbol: Seq<char>)
    ensures
        match slot(entries, symbol) {
            Some(k) => 0 <= k < entries.len() && entries[k].symbol == symbol,
            None => forall|k: int| 0 <= k < entries.len() ==> (#[trigger] entries[k]).symbol != symbol,
        },
{
    lemma_slot_from(entries, symbol, 0);
}

/// Where no symbol has two entries, the entry that holds a symbol is its place.
pub proof fn lemma_slot_unique<R>(entries: Seq<EntryModel<R>>, symbol: Seq<char>, i: int)
    requires
        distinct_symbols(entries),
        0 <= i < entries.len(),
        entries[i].symbol == symbol,
    ensures
        slot(entries, symbol) == Some(i),
{
    lemma_slot(entries, symbol);
    if slot(entries, symbol) is Some {
        let k = slot(entries, symbol)->Some_0;
        if k < i {
            assert(entries[k].symbol != entries[i].symbol);
        } else if i < k {
            assert(entries[i].symbol != entries[k].symbol);
        }
    }
}

impl<B: HotBuf> View for HotBuffers<B> {
    type V = Seq<EntryModel<B::Row>>;

    closed spec fn view(&self) -> Seq<EntryModel<B::Row>> {
        self.entries@.map_values(|e: HotEntry<B>| entry_model(e))
    }
}

impl<B: HotBuf> HotBuffers<B> {
    /// No symbol has two entries, and every buffer is well-formed.
    pub closed spec fn wf(&self) -> bool {
        &&& distinct_symbols(self@)
        &&& forall|i: int| 0 <= i < self.entries@.len() ==> (#[trigger] self.entries@[i]).buf.wf()
    }

    /// The symbols of well-formed buffers are distinct.
    pub proof fn lemma_distinct(&self)
        requires
            self.wf(),
        ensures
            distinct_symbols(self@),
    {
    }

    /// No buffers.
    pub fn new() -> (r: Self)
        ensures
            r.wf(),
            r@ == Seq::<EntryModel<B::Row>>::empty(),
    {
        let r = HotBuffers { entries: Vec::new() };
        assert(r@ =~= Seq::<EntryModel<B::Row>>::empty());
        r
    }

    /// The number of symbols.
    pub fn symbols(&self) -> (n: usize)
        ensures
            n == self@.len(),
    {
        self.entries.len()
    }

    /// The place of a symbol.
    pub(crate) fn position(&self, symbol: &str) -> (r: Option<usize>)
        ensures
            match r {
                Some(i) => slot(self@, symbol@) == Some(i as int) && i < self@.len(),
                None => slot(self@, symbol@) is None,
            },
    {
        let mut i: usize = 0;
        while i < self.entries.len()
            invariant
                i <= self.entries@.len(),
                slot(self@, symbol@) == slot_from(self@, symbol@, i as int),
            decreases self.entries@.len() - i,
        {
            assert(self@[i as int] == entry_model(self.entries@[i as int]));
            if text_eq(&*self.entries[i].symbol, symbol) {
                return Some(i);
            }
            i = i + 1;
        }
        None
    }

    /// The buffer of a symbol, and the number of its next file.
    pub fn get(&self, symbol: &str) -> (r: Option<(&B, u32)>)
        requires
            self.wf(),
        ensures
            match r {
                Some((buf, next_seq)) => {
                    &&& slot(self@, symbol@) matches Some(i)
                    &&& buf.wf()
                    &&& self@[i].rows == buf.rows()
                    &&& self@[i].oldest == buf.oldest()
                    &&& self@[i].room == buf.room()
                    &&& self@[i].next_seq == next_seq
                },
                None => slot(self@, symbol@) is None,
            },
    {
        match self.position(symbol) {
            Some(i) => {
                assert(self@[i as int] == entry_model(self.entries@[i as int]));
                Some((&self.entries[i].buf, self.entries[i].next_seq))
            },
            None => None,
        }
    }

    /// Adds a symbol that has no entry yet.
    pub(crate) fn insert(&mut self, symbol: Arc<str>, buf: B)
        requires
            old(self).wf(),
            buf.wf(),
            slot(old(self)@, symbol@) is None,
        ensures
            final(self).wf(),
            final(self)@ == old(self)@.push(
                EntryModel { symbol: symbol@, rows: buf.rows(), oldest: buf.oldest(), room: buf.room(), next_seq: 0 },
            ),
    {
        proof {
            lemma_slot(self@, symbol@);
        }
        self.entries.push(HotEntry { symbol, buf, next_seq: 0 });
        assert(self@ =~= old(self)@.push(
            EntryModel { symbol: symbol@, rows: buf.rows(), oldest: buf.oldest(), room: buf.room(), next_seq: 0 },
        ));
    }

    /// The symbol of an entry, and the number of its next file.
    pub(crate) fn label_at(&self, i: usize) -> (r: (Arc<str>, u32))
        requires
            i < self@.len(),
        ensures
            r.0@ == self@[i as int].symbol,
            r.1 == self@[i as int].next_seq,
    {
        assert(self@[i as int] == entry_model(self.entries@[i as int]));
        (self.entries[i].symbol.clone(), self.entries[i].next_seq)
    }

    /// The time of the oldest row of an entry.
    pub(crate) fn oldest_at(&self, i: usize) -> (r: Option<Timestamp>)
        requires
            self.wf(),
            i < self@.len(),
        ensures
            r == self@[i as int].oldest,
            r is Some <==> self@[i as int].rows.len() > 0,
            r matches Some(time) ==> time.wf(),
    {
        assert(self@[i as int] == entry_model(self.entries@[i as int]));
        self.entries[i].buf.oldest_receive_time()
    }

    /// Whether a symbol, where it has a buffer, has a file number left to flush
    /// to.
    pub fn can_flush(&self, symbol: &str) -> (r: bool)
        ensures
            r == number_left(self@, symbol@),
    {
        match self.position(symbol) {
            Some(i) => {
                assert(self@[i as int] == entry_model(self.entries@[i as int]));
                self.entries[i].next_seq < u32::MAX
            },
            None => true,
        }
    }

    /// Whether every entry has a file number left to flush to.
    pub fn can_sweep(&self) -> (r: bool)
        ensures
            r == numbers_left(self@),
    {
        let mut i: usize = 0;
        while i < self.entries.len()
            invariant
                i <= self.entries@.len(),
                forall|j: int| 0 <= j < i ==> (#[trigger] self@[j]).next_seq < u32::MAX,
            decreases self.entries@.len() - i,
        {
            assert(self@[i as int] == entry_model(self.entries@[i as int]));
            if self.entries[i].next_seq == u32::MAX {
                return false;
            }
            i = i + 1;
        }
        true
    }

    /// Takes the rows of an entry out and moves on to the next file number.
    pub(crate) fn take_rows(&mut self, i: usize) -> (taken: B)
        requires
            old(self).wf(),
            i < old(self)@.len(),
            old(self)@[i as int].next_seq < u32::MAX,
        ensures
            final(self).wf(),
            taken.wf(),
            taken.rows() == old(self)@[i as int].rows,
            taken.oldest() == old(self)@[i as int].oldest,
            taken.room() == old(self)@[i as int].room,
            final(self)@ == old(self)@.update(i as int, flushed(old(self)@[i as int])),
    {
        assert(self@[i as int] == entry_model(self.entries@[i as int]));
        let entry: &mut HotEntry<B> = &mut self.entries[i];
        entry.next_seq = entry.next_seq + 1;
        let taken: B = entry.buf.take();
        assert(self@ =~= old(self)@.update(i as int, flushed(old(self)@[i as int])));
        taken
    }

    /// Puts rows back in front of those of an entry.
    pub(crate) fn restore_rows(&mut self, i: usize, taken: B)
        requires
            old(self).wf(),
            i < old(self)@.len(),
            taken.wf(),
            taken.room() == old(self)@[i as int].room,
            old(self)@[i as int].rows.len() <= column_limit(),
        ensures
            final(self).wf(),
            final(self)@ == old(self)@.update(
                i as int,
                restored(old(self)@[i as int], taken.rows(), taken.oldest()),
            ),
    {
        assert(self@[i as int] == entry_model(self.entries@[i as int]));
        let entry: &mut HotEntry<B> = &mut self.entries[i];
        entry.buf.restore(taken);
        assert(self@ =~= old(self)@.update(
            i as int,
            restored(old(self)@[i as int], taken.rows(), taken.oldest()),
        ));
    }
}

/// The rows that memory holds of a symbol, where it holds any.
pub open spec fn hot_rows<R>(entries: Seq<EntryModel<R>>, symbol: Seq<char>) -> Option<Seq<R>> {
    match slot(entries, symbol) {
        Some(i) => if entries[i].rows.len() > 0 {
            Some(entries[i].rows)
        } else {
            None
        },
        None => None,
    }
}

/// Whether what memory holds of a symbol can be read as a table.
pub open spec fn readable<R>(entries: Seq<EntryModel<R>>, symbol: Seq<char>) -> bool {
    slot(entries, symbol) matches Some(i) ==> entries[i].rows.len() <= column_limit()
}

impl Frame {
    /// Whether the table is made of these rows of a symbol, with the symbol as
    /// its last column.
    pub open spec fn holds<B: HotBuf>(&self, rows: Seq<B::Row>, symbol: Seq<char>) -> bool {
        &&& self@ == B::table(rows).push(symbol_column(symbol, rows.len()))
        &&& self.height == rows.len()
    }
}

/// The rows that a query for a symbol reads from memory, or `None` if that
/// symbol isn't buffered (or is buffered but empty) -- the "hot" half of a live,
/// symbol-scoped hot ∪ cold query. A query for one symbol never touches any
/// other symbol's hot data. Non-destructive: snapshots the buffer without
/// disturbing what the batcher keeps appending to it.
///
/// Stamps a `symbol` column onto the snapshot using the caller-supplied symbol
/// (the same one used to look it up).
pub fn hot_lazyframe_for_symbol<B: HotBuf>(buffers: &HotBuffers<B>, symbol: &Arc<str>) -> (r: Option<Frame>)
    requires
        buffers.wf(),
        readable(buffers@, symbol@),
    ensures
        match r {
            Some(frame) => hot_rows(buffers@, symbol@) matches Some(rows) && frame.holds::<B>(rows, symbol@),
            None => hot_rows(buffers@, symbol@) is None,
        },
{
    match buffers.position(&**symbol) {
        Some(i) => {
            assert(buffers@[i as int] == entry_model(buffers.entries@[i as int]));
            if buffers.entries[i].buf.is_empty() {
                return None;
            }
            Some(with_symbol(buffers.entries[i].buf.snapshot(), &**symbol))
        },
        None => None,
    }
}

impl<B: HotBuf> HotBuffers<B> {
    /// Whether what memory holds of a symbol can be read as a table.
    pub fn can_read(&self, symbol: &str) -> (r: bool)
        requires
            self.wf(),
        ensures
            r == readable(self@, symbol@),
    {
        match self.position(symbol) {
            Some(i) => {
                assert(self@[i as int] == entry_model(self.entries@[i as int]));
                self.entries[i].buf.len() as u64 <= 0xFFFF_FFFE
            },
            None => true,
        }
    }
}

impl HotBuffers<HotBufQuote> {
    /// Appends a quote to the buffer of an entry, and says how many rows it holds.
    pub(crate) fn push_quote(&mut self, i: usize, quote: Quote) -> (n: usize)
        requires
            old(self).wf(),
            i < old(self)@.len(),
            quote.receive_time.wf(),
        ensures
            final(self).wf(),
            final(self)@ == old(self)@.update(
                i as int,
                appended(old(self)@[i as int], quote_row(quote), quote.receive_time),
            ),
            n == final(self)@[i as int].rows.len(),
    {
        assert(self@[i as int] == entry_model(self.entries@[i as int]));
        let ghost row = quote_row(quote);
        let ghost time = quote.receive_time;
        let entry: &mut HotEntry<HotBufQuote> = &mut self.entries[i];
        entry.buf.push(quote);
        let n: usize = entry.buf.len();
        assert(self@ =~= old(self)@.update(i as int, appended(old(self)@[i as int], row, time)));
        n
    }
}

impl HotBuffers<HotBufTrade> {
    /// Appends a trade to the buffer of an entry, and says how many rows it holds.
    pub(crate) fn push_trade(&mut self, i: usize, trade: Trade) -> (n: usize)
        requires
            old(self).wf(),
            i < old(self)@.len(),
            trade.receive_time.wf(),
        ensures
            final(self).wf(),
            final(self)@ == old(self)@.update(
                i as int,
                appended(old(self)@[i as int], trade_row(trade), trade.receive_time),
            ),
            n == final(self)@[i as int].rows.len(),
    {
        assert(self@[i as int] == entry_model(self.entries@[i as int]));
        let ghost row = trade_row(trade);
        let ghost time = trade.receive_time;
        let entry: &mut HotEntry<HotBufTrade> = &mut self.entries[i];
        entry.buf.push(trade);
        let n: usize = entry.buf.len();
        assert(self@ =~= old(self)@.update(i as int, appended(old(self)@[i as int], row, time)));
        n
    }
}

/// Whether a symbol, where it has a buffer, has a file number left to flush to.
pub open spec fn number_left<R>(entries: Seq<EntryModel<R>>, symbol: Seq<char>) -> bool {
    slot(entries, symbol) matches Some(i) ==> entries[i].next_seq < u32::MAX
}

/// Whether every entry has a file number left to flush to.
pub open spec fn numbers_left<R>(entries: Seq<EntryModel<R>>) -> bool {
    forall|i: int| 0 <= i < entries.len() ==> (#[trigger] entries[i]).next_seq < u32::MAX
}

/// An entry with one more row.
pub open spec fn appended<R>(entry: EntryModel<R>, row: R, time: Timestamp) -> EntryModel<R> {
    EntryModel {
        rows: entry.rows.push(row),
        oldest: if entry.oldest is Some {
            entry.oldest
        } else {
            Some(time)
        },
        ..entry
    }
}

/// An entry with rows put back in front of its own.
pub open spec fn restored<R>(entry: EntryModel<R>, rows: Seq<R>, oldest: Option<Timestamp>) -> EntryModel<R> {
    EntryModel {
        rows: rows + entry.rows,
        oldest: if oldest is Some {
            oldest
        } else {
            entry.oldest
        },
        ..entry
    }
}

/// An entry whose rows have been taken out for a file.
pub open spec fn flushed<R>(entry: EntryModel<R>) -> EntryModel<R> {
    EntryModel { rows: seq![], oldest: None, next_seq: (entry.next_seq + 1) as u32, ..entry }
}

} // verus!
