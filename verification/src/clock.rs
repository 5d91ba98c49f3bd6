//! The local clock and the calendar, as the `chrono` crate gives them.

use vstd::prelude::*;
use crate::text::{is_blank, single_line};

verus! {

/// One reading of the local clock, in the three forms that notes carry.
#[derive(Debug, Clone)]
pub struct Timestamp {
    /// The day, as `DD-MM-YYYY`.
    pub date: String,
    /// The hour and minute, as `HH-MM`.
    pub time: String,
    /// Day, hour and minute, as `DD-MM-YYYY HH:MM`.
    pub updated: String,
}

/// What a `Timestamp` holds, as plain sequences.
pub struct TimestampView {
    pub date: Seq<char>,
    pub time: Seq<char>,
    pub updated: Seq<char>,
}

impl View for Timestamp {
    type V = TimestampView;

    open spec fn view(&self) -> TimestampView {
        TimestampView { date: self.date@, time: self.time@, updated: self.updated@ }
    }
}

impl TimestampView {
    /// A reading that a note's header can carry: neither the day nor the
    /// stamp is blank, and neither holds a line break.
    pub open spec fn usable(self) -> bool {
        &&& !is_blank(self.date)
        &&& !is_blank(self.updated)
        &&& single_line(self.date)
        &&& single_line(self.updated)
    }
}

/// The format of a note's `date`: day, month and year.
pub const DATE_FORMAT: &'static str = "%d-%m-%Y";

/// The format of the time in a note's file name: hour and minute.
pub const TIME_FORMAT: &'static str = "%H-%M";

/// The format of a note's `updated`: day, month, year, hour and minute.
pub const STAMP_FORMAT: &'static str = "%d-%m-%Y %H:%M";

/// The format of a note's `date`.
pub open spec fn date_format() -> Seq<char> {
    DATE_FORMAT@
}

/// The format of the time in a note's file name.
pub open spec fn time_format() -> Seq<char> {
    TIME_FORMAT@
}

/// The format of a note's `updated`.
pub open spec fn stamp_format() -> Seq<char> {
    STAMP_FORMAT@
}

/// Reads the clock once with `Local::now` and writes the reading three times
/// with `DateTime::format`. The formats are fixed to the three that the
/// crate is known to accept. The contract claims only what holds of every
/// reading: the day and the stamp are written with digits and with the `-`,
/// the space and the `:` of their formats, so neither is blank and neither
/// holds a line break.
#[verifier::external_body]
pub(crate) fn local_now(date_fmt: &str, time_fmt: &str, stamp_fmt: &str) -> (now: Timestamp)
    requires
        date_fmt@ == date_format(),
        time_fmt@ == time_format(),
        stamp_fmt@ == stamp_format(),
    ensures
        now@.usable(),
{
    let now = chrono::Local::now();
    Timestamp {
        date: now.format(date_fmt).to_string(),
        time: now.format(time_fmt).to_string(),
        updated: now.format(stamp_fmt).to_string(),
    }
}

/// Reads the local clock.
pub fn current_timestamp() -> (now: Timestamp)
    ensures
        now@.usable(),
{
    local_now(DATE_FORMAT, TIME_FORMAT, STAMP_FORMAT)
}

/// The year and the day of the year that `NaiveDate::parse_from_str` reads
/// from `value` under `format`; `None` where it reports an error.
pub uninterp spec fn parsed_date(value: Seq<char>, format: Seq<char>) -> Option<(i32, u32)>;

/// Parses `value` with `NaiveDate::parse_from_str` and takes the date apart
/// into its year and its day of the year, the pair by which `NaiveDate`
/// orders its values. The contract claims that the outcome depends on the
/// arguments alone.
#[verifier::external_body]
pub(crate) fn parse_date_with(value: &str, format: &str) -> (r: Option<(i32, u32)>)
    ensures
        r == parsed_date(value@, format@),
{
    match chrono::NaiveDate::parse_from_str(value, format) {
        Ok(d) => Some((chrono::Datelike::year(&d), chrono::Datelike::ordinal(&d))),
        Err(_) => None,
    }
}

} // verus!
