//! Dates and points in time.
use vstd::prelude::*;
use vstd::utf8::*;

use crate::store::batcher::{age, is_stale};
use crate::store::hot_buffers::EntryModel;
use crate::utils::times::{
    combined, day_start, formatted_time, parsed_date, parsed_time, sending_time_text, time_format,
    time_on, Date, Timestamp,
};

verus! {

/// Days follow one another without a gap, each has 86400 seconds, and the Unix
/// epoch is the beginning of day 719163.
pub proof fn days_follow_one_another(day: int)
    ensures
        day_start(719_163) == 0,
        day_start(day + 1) - day_start(day) == 86_400,
        day_start(day) == (day - 719_163) * 86_400,
{
}

/// A point in time lies exactly as many seconds past the midnight of its date as
/// the time of day says, so later times of a day are later by as much, and all of
/// them are before the next day.
pub proof fn time_of_day_is_counted_from_midnight(day: int, earlier: int, later: int)
    requires
        0 <= earlier <= later < 86_400,
    ensures
        time_on(day, earlier) - (day - 719_163) * 86_400 == earlier,
        time_on(day, later) - time_on(day, earlier) == later - earlier,
        time_on(day, later) < time_on(day + 1, earlier),
        time_on(day + 1, earlier) - time_on(day, earlier) == 86_400,
{
}

/// The date of a point in time is the day between whose beginning and end it
/// lies.
pub proof fn date_is_the_day_around_a_time(time: Timestamp)
    ensures
        (time.date() - 719_163) * 86_400 <= time.secs,
        time.secs < (time.date() + 1 - 719_163) * 86_400,
{
}

/// A point in time in microseconds is what it is in nanoseconds, with the part
/// of a microsecond left out, and so keeps the order of points in time.
pub proof fn micros_are_whole_microseconds(a: Timestamp, b: Timestamp)
    ensures
        a.micros() * 1_000 <= a.secs * 1_000_000_000 + a.nanos < (a.micros() + 1) * 1_000,
        a.secs * 1_000_000_000 + a.nanos <= b.secs * 1_000_000_000 + b.nanos ==> a.micros() <= b.micros(),
{
}

/// The days and the points in time that the calendar holds.
pub proof fn calendar_has_these_bounds(date: Date, time: Timestamp)
    ensures
        date.wf() <==> -95_746_129 <= date.day <= 95_745_399,
        time.wf() <==> {
            &&& (-95_746_129 - 719_163) * 86_400 <= time.secs
            &&& time.secs < (95_745_400 - 719_163) * 86_400
            &&& time.nanos < 2_000_000_000
        },
{
}

/// A date and a time of day make the point in time that lies so far into that
/// day, and none where either of them cannot be read.
pub proof fn date_and_time_make_a_point_in_time(date: Seq<char>, time: Seq<char>)
    requires
        parsed_date(date, "%Y%m%d"@) matches Ok(day) ==> -95_746_129 <= day <= 95_745_399,
        forall|format: Seq<char>|
            (#[trigger] parsed_time(time, format)) matches Some((secs, nanos)) ==> secs < 86_400 && nanos
                < 2_000_000_000,
    ensures
        ({
            let format = if encode_utf8(time).len() == 12 {
                "%H:%M:%S%.3f"@
            } else {
                "%H:%M:%S%"@
            };
            match (parsed_date(date, "%Y%m%d"@), parsed_time(time, format), combined(date, time)) {
                (Ok(day), Some((secs, nanos)), Some(point)) => {
                    &&& point.secs - (day - 719_163) * 86_400 == secs
                    &&& point.nanos == nanos
                    &&& point.date() == day
                    &&& point.wf()
                },
                (Ok(_), Some(_), None) => false,
                (_, _, point) => point is None,
            }
        }),
        time_format(time) == "%H:%M:%S%.3f"@ || time_format(time) == "%H:%M:%S%"@,
{
}

/// What stands in SendingTime is the very second and nanosecond of sending.
pub proof fn sending_time_is_the_time_of_sending(now: Timestamp)
    ensures
        sending_time_text(now) == formatted_time(now.secs, now.nanos, "%Y%m%d-%H:%M:%S%.3f"@),
{
}

/// The age of a row is counted in nanoseconds: waiting longer makes it older by
/// as much, a row is not older than itself, and a second has a thousand million
/// nanoseconds.
pub proof fn age_grows_with_the_clock(row: Timestamp, then: Timestamp, now: Timestamp)
    ensures
        age(row, row) == 0,
        age(row, now) == age(row, then) + age(then, now),
        age(row, now) == -age(now, row),
        then.secs == now.secs ==> age(then, now) == now.nanos - then.nanos,
        then.nanos == now.nanos ==> age(then, now) == 1_000_000_000 * (now.secs - then.secs),
{
}

/// A buffer is stale exactly where it holds rows and its oldest row has waited
/// for at least `max_age` seconds; once it is, it stays so as the clock goes on.
pub proof fn rows_are_stale_once_they_have_waited<R>(
    entry: EntryModel<R>,
    row: Timestamp,
    now: Timestamp,
    later: Timestamp,
    max_age: int,
)
    ensures
        entry.rows.len() == 0 || entry.oldest is None ==> !is_stale(entry, now, max_age),
        entry.rows.len() > 0 && entry.oldest == Some(row) ==> (is_stale(entry, now, max_age) <==> now.secs
            * 1_000_000_000 + now.nanos >= row.secs * 1_000_000_000 + row.nanos + max_age * 1_000_000_000),
        is_stale(entry, now, max_age) && age(now, later) >= 0 ==> is_stale(entry, later, max_age),
{
}

} // verus!
