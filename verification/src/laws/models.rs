//! What the models of values say of them.
use vstd::prelude::*;

use crate::config::text_or;
use crate::errors::{load_message, parsing_message, LoadError, LoadFault, ParsingError, ParsingFault};
use crate::fix::raw_msg::{FieldText, RawMessage, ValType};
use crate::network::session::StopReason;
use crate::query::query::{
    date_model, date_wf, query_message, read_date_wf, QueryError, QueryFault, QueryPlan,
};
use crate::store::catalog::{Kind, Partition};
use crate::store::hot_buf::{ColumnData, ColumnModel, Frame, HotBuf};
use crate::store::hot_buffers::{entry_model, HotEntry};
use crate::types::time_wf;
use crate::utils::times::{Date, Timestamp};

verus! {

/// The model of an error is the same error.
pub proof fn model_of_an_error_is_the_same_error(text: String, load: LoadError, n: i32)
    ensures
        LoadError::NotUtf8(text)@ == LoadFault::NotUtf8(text@),
        LoadError::UnexpectedTag@ == LoadFault::UnexpectedTag,
        LoadError::PairValue@ == LoadFault::PairValue,
        ParsingError::NotValidVal@ == ParsingFault::NotValidVal,
        ParsingError::NotCompleteSnapshot(n)@ == ParsingFault::NotCompleteSnapshot(n),
        ParsingError::FailToLoad(load)@ == ParsingFault::FailToLoad(load@),
{
}

/// The model of a rejected query says the same of it.
pub proof fn model_of_a_rejection_is_the_same_rejection(text: String, tag: u32, reason: String)
    ensures
        QueryError::NotImplemented(text)@ == QueryFault::NotImplemented(text@),
        QueryError::NoSymbol@ == QueryFault::NoSymbol,
        QueryError::NoSentence@ == QueryFault::NoSentence,
        QueryError::InvalidDate(text, tag, reason)@ == QueryFault::InvalidDate(text@, tag, reason@),
        QueryError::WindowOutOfRange@ == QueryFault::WindowOutOfRange,
{
}

/// The errors that are about nothing in particular have fixed messages, and so
/// have the reasons for which a session ends.
pub proof fn fixed_messages()
    ensures
        parsing_message(ParsingFault::NotValidVal) == "value is not valid"@,
        load_message(LoadFault::UnexpectedTag) == "Unexpected or unknown tag encountered"@,
        load_message(LoadFault::PairValue)
            == "Should not have pair val in the current version, check the response logic!"@,
        query_message(QueryFault::NoSymbol) == "query must specify a symbol (tag 1)"@,
        query_message(QueryFault::NoSentence) == "query must include a SQL sentence (tag 2)"@,
        query_message(QueryFault::WindowOutOfRange) == "date window out of range"@,
        StopReason::BeginSeqNotSingle.message() == "Does not receive begin seq no on resend request"@,
        StopReason::BeginSeqMissing.message() == "Receive invalid begin seq no on resend request"@,
        StopReason::Logout.message() == "exchange sent Logout, ending session"@,
        Kind::Quote.label() == "Quote"@,
        Kind::Trade.label() == "Trade"@,
{
}

/// The model of a message has its fields, one for one: the same tags, in the same
/// order, with the same texts.
pub proof fn model_of_a_message_has_its_fields(message: RawMessage, i: int, text: String, other: String)
    ensures
        message@.len() == message.fields@.len(),
        0 <= i < message@.len() ==> message@[i].0 == message.fields@[i].0 && message@[i].1 == message.fields@[i].1@,
        ValType::Single(text)@ == FieldText::Single(text@),
        ValType::Pair((text, other))@ == FieldText::Pair(text@, other@),
{
}

/// The model of a table has its columns, one for one, with the same names and the
/// same values.
pub proof fn model_of_a_table_has_its_columns(frame: Frame, i: int, data: ColumnData)
    ensures
        frame@.len() == frame.columns@.len(),
        0 <= i < frame@.len() ==> frame@[i].0 == frame.columns@[i].name@ && frame@[i].1 == frame.columns@[i].data@,
        match data {
            ColumnData::Times(values) => data@ == ColumnModel::Times(values@),
            ColumnData::Prices(values) => data@ == ColumnModel::Prices(values@),
            ColumnData::Volumes(values) => data@ == ColumnModel::Volumes(values@),
            ColumnData::Types(values) => data@ == ColumnModel::Types(values@),
            ColumnData::Texts(values) => data@ matches ColumnModel::Texts(model) && model.len() == values@.len()
                && forall|k: int| 0 <= k < model.len() ==> #[trigger] model[k] == values@[k]@,
        },
{
}

/// The model of a plan is for the same symbol, sentence and days.
pub proof fn model_of_a_plan_asks_the_same(plan: QueryPlan)
    ensures
        plan@.symbol == plan.symbol@,
        plan@.sentence == plan.sentence@,
        plan@.start == plan.start.day,
        plan@.end == plan.end.day,
{
}

/// The model of a partition is about the same rows and has the same files, and
/// the model of a buffer holds the same rows.
pub proof fn models_of_the_store_hold_the_same<B: HotBuf>(partition: Partition, entry: HotEntry<B>, i: int)
    ensures
        partition@.key.symbol == partition.symbol@,
        partition@.key.kind == partition.kind,
        partition@.key.date == partition.date,
        partition@.files.len() == partition.files@.len(),
        0 <= i < partition@.files.len() ==> partition@.files[i] == partition.files@[i]@,
        entry_model(entry).symbol == entry.symbol@,
        entry_model(entry).rows == entry.buf.rows(),
        entry_model(entry).oldest == entry.buf.oldest(),
        entry_model(entry).room == entry.buf.room(),
        entry_model(entry).next_seq == entry.next_seq,
{
}

/// A date or a time that is not there is always in order, and one that is there
/// is where it is one of the calendar. The model of a date that was read is the
/// same date, or the same rejection.
pub proof fn missing_dates_are_in_order(date: Date, time: Timestamp, read: Option<Date>, error: QueryError)
    ensures
        date_wf(None),
        date_wf(Some(date)) <==> -95_746_129 <= date.day <= 95_745_399,
        time_wf(None),
        time_wf(Some(time)) <==> time.wf(),
        date_model(Ok(read)) == Ok::<Option<Date>, QueryFault>(read),
        date_model(Err(error)) == Err::<Option<Date>, QueryFault>(error@),
        read_date_wf(Ok(read)) <==> date_wf(read),
        read_date_wf(Err(error)),
{
}

/// A setting that is given is taken, and only a missing one has its default.
pub proof fn given_settings_are_taken(text: String, default: Seq<char>)
    ensures
        text_or(Some(text), default) == text@,
        text_or(None, default) == default,
{
}

} // verus!
