//! Dates and times, read and written by `chrono`. A date is held as the
//! number of its day, counted from 1 January of the year 1; a time as the
//! microseconds since the Unix epoch.
use vstd::prelude::*;
use chrono::{DateTime, Datelike, Local, NaiveDate, Utc};

verus! {

/// The day that a text names, in the form year-month-day, if it names one.
pub uninterp spec fn date_of_text(text: Seq<char>) -> Option<i32>;

/// A day in the form year-month-day, if the calendar reaches it.
pub uninterp spec fn text_of_date(day: i32) -> Option<Seq<char>>;

/// A time in the form of RFC 3339, if the calendar reaches it.
pub uninterp spec fn text_of_time(micros: i64) -> Option<Seq<char>>;

/// A time as date and time of day to the second, if the calendar reaches it.
pub uninterp spec fn short_text_of_time(micros: i64) -> Option<Seq<char>>;

/// `str::parse` to a `NaiveDate`, then `Datelike::num_days_from_ce`: the day
/// that the text names.
#[verifier::external_body]
pub(crate) fn parse_date(text: &str) -> (r: Option<i32>)
    ensures
        r == date_of_text(text@),
{
    text.parse::<NaiveDate>().ok().map(|date| date.num_days_from_ce())
}

/// `NaiveDate::from_num_days_from_ce_opt`, then `to_string`: the day in the
/// form year-month-day.
#[verifier::external_body]
pub(crate) fn format_date(day: i32) -> (r: Option<String>)
    ensures
        match r {
            Some(text) => text_of_date(day) == Some(text@),
            None => text_of_date(day) is None,
        },
{
    NaiveDate::from_num_days_from_ce_opt(day).map(|date| date.to_string())
}

/// `DateTime::from_timestamp_micros`, then `to_rfc3339`.
#[verifier::external_body]
pub(crate) fn format_time(micros: i64) -> (r: Option<String>)
    ensures
        match r {
            Some(text) => text_of_time(micros) == Some(text@),
            None => text_of_time(micros) is None,
        },
{
    DateTime::<Utc>::from_timestamp_micros(micros).map(|time| time.to_rfc3339())
}

/// `DateTime::from_timestamp_micros`, then `format` with date and time of
/// day to the second.
#[verifier::external_body]
pub(crate) fn format_time_short(micros: i64) -> (r: Option<String>)
    ensures
        match r {
            Some(text) => short_text_of_time(micros) == Some(text@),
            None => short_text_of_time(micros) is None,
        },
{
    DateTime::<Utc>::from_timestamp_micros(micros).map(
        |time| time.format("%Y-%m-%d %H:%M:%S").to_string(),
    )
}

/// `Utc::now`, then `Datelike::year`: the year of the calendar at this
/// moment. Nothing is known of it beforehand.
#[verifier::external_body]
pub(crate) fn current_year() -> i32 {
    Utc::now().year()
}

/// `Local::now`, then `format` as year-month-day: the day of today where
/// the machine stands. Nothing is known of it beforehand.
#[verifier::external_body]
pub(crate) fn today() -> String {
    Local::now().format("%Y-%m-%d").to_string()
}

/// How a day is shown: in the form year-month-day, and as nothing where the
/// calendar does not reach it.
pub open spec fn shown_date(day: i32) -> Seq<char> {
    match text_of_date(day) {
        Some(text) => text,
        None => Seq::empty(),
    }
}

/// How a day is shown.
pub fn show_date(day: i32) -> (r: String)
    ensures
        r@ == shown_date(day),
{
    match format_date(day) {
        Some(text) => text,
        None => String::new(),
    }
}

/// How a time is shown in full: in the form of RFC 3339, and as nothing
/// where the calendar does not reach it.
pub open spec fn shown_time(micros: i64) -> Seq<char> {
    match text_of_time(micros) {
        Some(text) => text,
        None => Seq::empty(),
    }
}

/// How a time is shown in full.
pub fn show_time(micros: i64) -> (r: String)
    ensures
        r@ == shown_time(micros),
{
    match format_time(micros) {
        Some(text) => text,
        None => String::new(),
    }
}

/// How a time is shown in short: date and time of day to the second, and
/// nothing where the calendar does not reach it.
pub open spec fn shown_time_short(micros: i64) -> Seq<char> {
    match short_text_of_time(micros) {
        Some(text) => text,
        None => Seq::empty(),
    }
}

/// How a time is shown in short.
pub fn show_time_short(micros: i64) -> (r: String)
    ensures
        r@ == shown_time_short(micros),
{
    match format_time_short(micros) {
        Some(text) => text,
        None => String::new(),
    }
}

} // verus!
