//! Dates and points in time.
use chrono::{DateTime, Datelike, NaiveDate, NaiveTime, Timelike, Utc};
use vstd::prelude::*;
use vstd::string::*;
use vstd::utf8::*;

verus! {

/// The first and the last day that the calendar of `chrono` holds, and the day
/// of the Unix epoch, counted from 1 January of the year 1 as day 1.
pub const MIN_DAY: i32 = -95_746_129;

pub const MAX_DAY: i32 = 95_745_399;

pub const UNIX_EPOCH_DAY: i64 = 719_163;

/// A calendar date, as the number of its day: 1 January of the year 1 is day 1.
#[derive(Debug, Clone, Copy, PartialEq, Eq, Structural)]
pub struct Date {
    pub day: i32,
}

impl Date {
    /// The calendar holds this day.
    pub open spec fn wf(self) -> bool {
        MIN_DAY <= self.day <= MAX_DAY
    }
}

/// A point in time in UTC: seconds since the Unix epoch, and nanoseconds past
/// them. A leap second has more than a second's worth of nanoseconds.
#[derive(Debug, Clone, Copy, PartialEq, Eq, Structural)]
pub struct Timestamp {
    pub secs: i64,
    pub nanos: u32,
}

/// The second at which a day begins.
pub open spec fn day_start(day: int) -> int {
    (day - UNIX_EPOCH_DAY) * 86_400
}

impl Timestamp {
    /// The calendar holds this point in time.
    pub open spec fn wf(self) -> bool {
        day_start(MIN_DAY as int) <= self.secs < day_start(MAX_DAY + 1) && self.nanos < 2_000_000_000
    }

    /// Microseconds since the Unix epoch.
    pub open spec fn micros(self) -> int {
        self.secs * 1_000_000 + self.nanos / 1_000
    }

    /// The date on which the point in time falls.
    pub open spec fn date(self) -> int {
        self.secs as int / 86_400 + UNIX_EPOCH_DAY
    }

    /// Microseconds since the Unix epoch.
    pub fn timestamp_micros(&self) -> (micros: i64)
        requires
            self.wf(),
        ensures
            micros == self.micros(),
    {
        self.secs * 1_000_000 + (self.nanos / 1_000) as i64
    }

    /// The date on which the point in time falls.
    pub fn date_naive(&self) -> (date: Date)
        requires
            self.wf(),
        ensures
            date.wf(),
            date.day == self.date(),
    {
        // Moved to a nonnegative number of seconds before dividing.
        let shifted: i64 = self.secs + 8_640_000_000_000;
        let day: i64 = shifted / 86_400 - 100_000_000 + UNIX_EPOCH_DAY;
        Date { day: day as i32 }
    }
}

/// What `NaiveDate::parse_from_str` makes of a text: the number of the day, or
/// the message of the error.
pub uninterp spec fn parsed_date(text: Seq<char>, format: Seq<char>) -> Result<i32, Seq<char>>;

/// `NaiveDate::parse_from_str`: the number of the day that the text denotes
/// under the format, or the message of the error. A date is one that the
/// calendar holds.
#[verifier::external_body]
pub(crate) fn parse_date(text: &str, format: &str) -> (r: Result<i32, String>)
    ensures
        match r {
            Ok(day) => parsed_date(text@, format@) == Ok::<i32, Seq<char>>(day) && MIN_DAY <= day <= MAX_DAY,
            Err(message) => parsed_date(text@, format@) == Err::<i32, Seq<char>>(message@),
        },
{
    NaiveDate::parse_from_str(text, format).map(|d| d.num_days_from_ce()).map_err(|e| e.to_string())
}

/// What `NaiveTime::parse_from_str` makes of a text: seconds since midnight and
/// nanoseconds past them, where it reads the text.
pub uninterp spec fn parsed_time(text: Seq<char>, format: Seq<char>) -> Option<(u32, u32)>;

/// `NaiveTime::parse_from_str`: the time of day that the text denotes under the
/// format, as seconds since midnight and nanoseconds past them.
#[verifier::external_body]
pub(crate) fn parse_time(text: &str, format: &str) -> (r: Option<(u32, u32)>)
    ensures
        r == parsed_time(text@, format@),
        r matches Some((secs, nanos)) ==> secs < 86_400 && nanos < 2_000_000_000,
{
    let time = NaiveTime::parse_from_str(text, format).ok();
    time.map(|t| (t.num_seconds_from_midnight(), t.nanosecond()))
}

/// The text that `NaiveDate::to_string` makes of a day.
pub uninterp spec fn day_text(day: i32) -> Seq<char>;

/// `<NaiveDate as ToString>::to_string`: the date as text, made of the year in
/// four digits or more, and the month and the day in two, with hyphens between
/// them, and so without a slash.
#[verifier::external_body]
pub(crate) fn date_text(day: i32) -> (r: String)
    requires
        MIN_DAY <= day <= MAX_DAY,
    ensures
        r@ == day_text(day),
        r@.len() >= 10,
        !r@.contains('/'),
{
    NaiveDate::from_num_days_from_ce_opt(day).unwrap().to_string()
}

/// `Utc::now`: the system clock, as seconds since the Unix epoch and
/// nanoseconds past them. The call panics where the clock stands before the
/// epoch or past the end of the calendar, which is not stated.
#[verifier::external_body]
fn utc_now() -> (r: (i64, u32))
    ensures
        0 <= r.0 < day_start(MAX_DAY + 1),
        r.1 < 1_000_000_000,
{
    let now = Utc::now();
    (now.timestamp(), now.timestamp_subsec_nanos())
}

/// The text that `DateTime::format` makes of a point in time.
pub uninterp spec fn formatted_time(secs: i64, nanos: u32, format: Seq<char>) -> Seq<char>;

/// `DateTime::<Utc>::format`: a point in time as text. A format that is not
/// well-formed makes the call panic; one is admitted here.
#[verifier::external_body]
fn format_time(secs: i64, nanos: u32, format: &str) -> (r: String)
    requires
        0 <= secs < day_start(MAX_DAY + 1),
        nanos < 1_000_000_000,
        format@ == "%Y%m%d-%H:%M:%S%.3f"@,
    ensures
        r@ == formatted_time(secs, nanos, format@),
{
    DateTime::from_timestamp(secs, nanos).unwrap().format(format).to_string()
}

/// The SendingTime of a message sent at this point in time.
pub open spec fn sending_time_text(now: Timestamp) -> Seq<char> {
    formatted_time(now.secs, now.nanos, "%Y%m%d-%H:%M:%S%.3f"@)
}

/// The current time.
pub fn now() -> (now: Timestamp)
    ensures
        now.wf(),
        now.secs >= 0,
        now.nanos < 1_000_000_000,
{
    let (secs, nanos) = utc_now();
    Timestamp { secs, nanos }
}

/// The current date.
pub fn today() -> (date: Date)
    ensures
        date.wf(),
        date.day >= UNIX_EPOCH_DAY,
{
    now().date_naive()
}

/// A point in time, as it stands in the SendingTime of a message.
pub fn sending_time_at(now: Timestamp) -> (r: String)
    requires
        now.wf(),
        now.secs >= 0,
        now.nanos < 1_000_000_000,
    ensures
        r@ == sending_time_text(now),
{
    format_time(now.secs, now.nanos, "%Y%m%d-%H:%M:%S%.3f")
}

/// The current time, as it stands in the SendingTime of a message.
pub fn sending_time() -> (r: String)
    ensures
        exists|now: Timestamp| now.wf() && r@ == #[trigger] sending_time_text(now),
{
    let now: Timestamp = now();
    sending_time_at(now)
}

/// A time of day on a date, as a point in time.
pub open spec fn time_on(day: int, secs: int) -> int {
    day_start(day) + secs
}

/// The point in time that lies `secs` seconds and `nanos` nanoseconds into
/// `date`.
pub fn timestamp_at(date: Date, secs: u32, nanos: u32) -> (r: Timestamp)
    requires
        date.wf(),
        secs < 86_400,
        nanos < 2_000_000_000,
    ensures
        r.wf(),
        r.secs == time_on(date.day as int, secs as int),
        r.secs - (date.day - 719_163) * 86_400 == secs,
        r.nanos == nanos,
{
    Timestamp { secs: (date.day as i64 - UNIX_EPOCH_DAY) * 86_400 + secs as i64, nanos }
}

/// A time of day on a date falls on that date.
pub proof fn time_on_a_date_falls_on_it(date: Date, secs: int, time: Timestamp)
    requires
        0 <= secs < 86_400,
        time.secs == time_on(date.day as int, secs),
    ensures
        time.date() == date.day,
{
}

/// The format of MDEntryTime: a time of twelve characters has milliseconds.
pub open spec fn time_format(md_entry_time: Seq<char>) -> Seq<char> {
    if encode_utf8(md_entry_time).len() == 12 {
        "%H:%M:%S%.3f"@
    } else {
        "%H:%M:%S%"@
    }
}

/// The point in time that an MDEntryDate and an MDEntryTime denote, where both
/// are well-formed.
pub open spec fn combined(md_entry_date: Seq<char>, md_entry_time: Seq<char>) -> Option<Timestamp> {
    match (parsed_date(md_entry_date, "%Y%m%d"@), parsed_time(md_entry_time, time_format(md_entry_time))) {
        (Ok(day), Some((secs, nanos))) => Some(
            Timestamp { secs: time_on(day as int, secs as int) as i64, nanos },
        ),
        _ => None,
    }
}

/// The point in time that `md_entry_date` and `md_entry_time` denote, or `None`
/// where one of them is malformed.
pub fn try_combine_date_time(md_entry_date: &str, md_entry_time: &str) -> (r: Option<Timestamp>)
    ensures
        r == combined(md_entry_date@, md_entry_time@),
        r matches Some(time) ==> time.wf(),
{
    let day: i32 = match parse_date(md_entry_date, "%Y%m%d") {
        Ok(day) => day,
        Err(_) => {
            return None;
        },
    };
    let format: &str = if md_entry_time.as_bytes().len() == 12 {
        "%H:%M:%S%.3f"
    } else {
        "%H:%M:%S%"
    };
    match parse_time(md_entry_time, format) {
        Some((secs, nanos)) => Some(timestamp_at(Date { day }, secs, nanos)),
        None => None,
    }
}

/// The point in time that `md_entry_date` and `md_entry_time` denote, where
/// both are well-formed.
pub fn combine_date_time(md_entry_date: &str, md_entry_time: &str) -> (r: Timestamp)
    requires
        combined(md_entry_date@, md_entry_time@) is Some,
    ensures
        combined(md_entry_date@, md_entry_time@) == Some(r),
        r.wf(),
{
    try_combine_date_time(md_entry_date, md_entry_time).unwrap()
}

} // verus!
