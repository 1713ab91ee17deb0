//! The publication date of an episode: the upload date of a video, eight
//! digits for year, month and day, put into the form that feeds use.
//! Reading the calendar date and naming its weekday and month are left to
//! `chrono`.

use crate::text::{all_digits, chars_of, is_digit, opt_text};
use vstd::prelude::*;

verus! {

/// A day of the calendar.
#[derive(Clone, Copy, Debug, PartialEq, Eq, Structural)]
pub struct CalendarDate {
    pub year: i32,
    pub month: u32,
    pub day: u32,
}

/// Year, month and day of an optional date.
pub open spec fn date_fields(date: Option<CalendarDate>) -> Option<(int, int, int)> {
    match date {
        Some(d) => Some((d.year as int, d.month as int, d.day as int)),
        None => None,
    }
}

/// The date that `chrono` reads from `text` under the format `format`, as
/// year, month and day; `None` where it reports an error.
pub uninterp spec fn chrono_parse_date(text: Seq<char>, format: Seq<char>) -> Option<(int, int, int)>;

/// What `chrono` writes for the day `year`-`month`-`day` under the format
/// `format`; `None` where there is no such day in its calendar, or where
/// writing it under that format fails.
pub uninterp spec fn chrono_format_date(year: int, month: int, day: int, format: Seq<char>) -> Option<Seq<char>>;

/// `chrono::NaiveDate::parse_from_str`: reads `text` under `format`. The
/// result is the date that `chrono` finds, by year, month and day, and
/// `None` where it returns an error.
#[verifier::external_body]
fn parse_date(text: &str, format: &str) -> (r: Option<CalendarDate>)
    ensures
        date_fields(r) == chrono_parse_date(text@, format@),
{
    match chrono::NaiveDate::parse_from_str(text, format) {
        Ok(date) => Some(
            CalendarDate {
                year: chrono::Datelike::year(&date),
                month: chrono::Datelike::month(&date),
                day: chrono::Datelike::day(&date),
            },
        ),
        Err(_) => None,
    }
}

/// `chrono::NaiveDate::format`, written out at once: the text of `date`
/// under `format`. `None` where `chrono` has no such day, or where its
/// writer reports an error, as it does for a format that it cannot read.
#[verifier::external_body]
fn format_date(date: CalendarDate, format: &str) -> (r: Option<String>)
    ensures
        opt_text(r) == chrono_format_date(
            date.year as int,
            date.month as int,
            date.day as int,
            format@,
        ),
{
    match chrono::NaiveDate::from_ymd_opt(date.year, date.month, date.day) {
        Some(day) => {
            let mut out = String::new();
            match day.format(format).write_to(&mut out) {
                Ok(()) => Some(out),
                Err(_) => None,
            }
        },
        None => None,
    }
}

/// The format of an upload date: year, month and day, nothing between them.
pub open spec fn upload_date_format() -> Seq<char> {
    "%Y%m%d"@
}

/// The format of a publication date: weekday, day, month and year, at
/// midnight, Coordinated Universal Time.
pub open spec fn pub_date_format() -> Seq<char> {
    "%a, %d %b %Y 00:00:00 +0000"@
}

/// Whether `raw` has the shape of an upload date: eight decimal digits.
pub open spec fn upload_date_shape(raw: Seq<char>) -> bool {
    raw.len() == 8 && all_digits(raw)
}

/// The publication date for the upload date `raw`: `None` unless `raw` is
/// eight digits that `chrono` reads as a day of the calendar.
pub open spec fn pub_date_text(raw: Seq<char>) -> Option<Seq<char>> {
    if upload_date_shape(raw) {
        match chrono_parse_date(raw, upload_date_format()) {
            Some((year, month, day)) => chrono_format_date(year, month, day, pub_date_format()),
            None => None,
        }
    } else {
        None
    }
}

/// Whether `raw` has the shape of an upload date.
pub fn is_upload_date_shape(raw: &str) -> (r: bool)
    ensures
        r == upload_date_shape(raw@),
{
    let chars = chars_of(raw);
    if chars.len() != 8 {
        return false;
    }
    let mut i: usize = 0;
    while i < 8
        invariant
            0 <= i <= 8,
            chars.len() == 8,
            chars@ == raw@,
            forall|k: int| 0 <= k < i ==> is_digit(#[trigger] chars@[k]),
        decreases 8 - i,
    {
        let c = chars[i];
        if !('0' <= c && c <= '9') {
            return false;
        }
        i += 1;
    }
    true
}

/// Turns an upload date into a publication date. `None` where `raw` is
/// not eight digits, or where `chrono` does not take them for a day.
pub fn format_upload_date(raw: &str) -> (r: Option<String>)
    ensures
        opt_text(r) == pub_date_text(raw@),
{
    if !is_upload_date_shape(raw) {
        return None;
    }
    match parse_date(raw, "%Y%m%d") {
        Some(date) => format_date(date, "%a, %d %b %Y 00:00:00 +0000"),
        None => None,
    }
}

} // verus!
