//! Calendar days.  A day is held as its number in the proleptic Gregorian
//! calendar with January 1 of year 1 as day 1 (chrono's `num_days_from_ce`),
//! so that day arithmetic and ordering are plain integer arithmetic and
//! ordering.  Parsing and formatting go through chrono.
use vstd::prelude::*;

verus! {

/// Storage format of dates (`YYYY-MM-DD`).
pub const DATE_FORMAT: &'static str = "%Y-%m-%d";

/// User-facing format of dates (`DD-MM-YYYY`).
pub const DISPLAY_DATE_FORMAT: &'static str = "%d-%m-%Y";

/// The first day chrono can represent (January 1 of year -262143).
pub const MIN_DAY: i32 = -95746129;

/// The last day chrono can represent (December 31 of year 262142).
pub const MAX_DAY: i32 = 95745399;

pub open spec fn valid_day(day: int) -> bool {
    MIN_DAY <= day <= MAX_DAY
}

/// Day of the week, Monday = 0 ... Sunday = 6.  Day 1 (January 1 of year 1
/// in the proleptic Gregorian calendar) is a Monday.
pub open spec fn weekday_of(day: int) -> int {
    (day - 1) % 7
}

pub open spec fn is_weekend(day: int) -> bool {
    weekday_of(day) >= 5
}

/// What `NaiveDate::parse_from_str(text, format)` yields: the date as a
/// day number, or the text of the parse error.
pub uninterp spec fn date_parse(text: Seq<char>, format: Seq<char>) -> Result<int, Seq<char>>;

/// The day `text` denotes in `format`, if it parses.
pub open spec fn parsed_day(text: Seq<char>, format: Seq<char>) -> Option<int> {
    match date_parse(text, format) {
        Ok(day) => Some(day),
        Err(_) => None,
    }
}

/// What `NaiveDate::format(format).to_string()` writes for a day.
pub uninterp spec fn formatted_day(day: int, format: Seq<char>) -> Seq<char>;

/// `NaiveDate::parse_from_str` followed by `Datelike::num_days_from_ce`,
/// with the error's `to_string`.  The result is the named parse of the
/// arguments; a parsed date always lies in chrono's range.
#[verifier::external_body]
pub(crate) fn parse_day(text: &str, format: &str) -> (r: Result<i32, String>)
    ensures
        match r {
            Ok(day) => date_parse(text@, format@) == Ok::<int, Seq<char>>(day as int) && valid_day(day as int),
            Err(message) => date_parse(text@, format@) == Err::<int, Seq<char>>(message@),
        },
{
    chrono::NaiveDate::parse_from_str(text, format).map(|date| chrono::Datelike::num_days_from_ce(&date)).map_err(
        |error| error.to_string(),
    )
}

/// `NaiveDate::from_num_days_from_ce_opt` followed by `format(..).to_string()`.
/// Only the two date formats of this crate are passed: `to_string` panics on
/// a format with an invalid specifier.
#[verifier::external_body]
pub(crate) fn format_day(day: i32, format: &str) -> (r: String)
    requires
        valid_day(day as int),
        format@ == DATE_FORMAT@ || format@ == DISPLAY_DATE_FORMAT@,
    ensures
        r@ == formatted_day(day as int, format@),
{
    let date = chrono::NaiveDate::from_num_days_from_ce_opt(day).unwrap();
    date.format(format).to_string()
}

/// `Datelike::weekday().num_days_from_monday()` of the day.
#[verifier::external_body]
pub(crate) fn weekday_index(day: i32) -> (r: u32)
    requires
        valid_day(day as int),
    ensures
        r as int == weekday_of(day as int),
{
    let date = chrono::NaiveDate::from_num_days_from_ce_opt(day).unwrap();
    chrono::Datelike::weekday(&date).num_days_from_monday()
}

/// The storage text of a day (`YYYY-MM-DD`).
pub open spec fn iso_text(day: int) -> Seq<char> {
    formatted_day(day, DATE_FORMAT@)
}

/// The day a storage text denotes, if it parses.
pub open spec fn iso_day(text: Seq<char>) -> Option<int> {
    parsed_day(text, DATE_FORMAT@)
}

/// A text is a canonical storage date when it parses and formats back to
/// itself.
pub open spec fn is_canonical_date(text: Seq<char>) -> bool {
    match iso_day(text) {
        Some(day) => valid_day(day) && iso_text(day) == text,
        None => false,
    }
}

pub fn parse_iso_day(text: &str) -> (r: Option<i32>)
    ensures
        match r {
            Some(day) => iso_day(text@) == Some(day as int) && valid_day(day as int),
            None => iso_day(text@) is None,
        },
{
    match parse_day(text, DATE_FORMAT) {
        Ok(day) => Some(day),
        Err(_) => None,
    }
}

/// A storage date as a day number, or chrono's text of why it does not
/// parse.
pub fn parse_iso_day_or_error(text: &str) -> (r: Result<i32, String>)
    ensures
        match r {
            Ok(day) => date_parse(text@, DATE_FORMAT@) == Ok::<int, Seq<char>>(day as int) && valid_day(day as int),
            Err(message) => date_parse(text@, DATE_FORMAT@) == Err::<int, Seq<char>>(message@),
        },
{
    parse_day(text, DATE_FORMAT)
}

pub fn format_iso_day(day: i32) -> (r: String)
    requires
        valid_day(day as int),
    ensures
        r@ == iso_text(day as int),
{
    format_day(day, DATE_FORMAT)
}

/// Whether the text is a canonical `YYYY-MM-DD` date.
pub fn canonical_date(text: &str) -> (r: bool)
    ensures
        r == is_canonical_date(text@),
{
    match parse_iso_day(text) {
        Some(day) => {
            let back = format_iso_day(day);
            crate::text::text_eq(back.as_str(), text)
        },
        None => false,
    }
}

/// A storage date (`YYYY-MM-DD`) as the user sees it (`DD-MM-YYYY`); a text
/// that is not a storage date is shown as it is.
pub fn display_date(date: &str) -> (r: String)
    ensures
        r@ == (match iso_day(date@) {
            Some(day) => formatted_day(day, DISPLAY_DATE_FORMAT@),
            None => date@,
        }),
{
    match parse_iso_day(date) {
        Some(day) => format_day(day, DISPLAY_DATE_FORMAT),
        None => String::from_str(date),
    }
}

} // verus!
