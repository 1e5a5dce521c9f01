//! The wall clock, read through `chrono`.
use vstd::prelude::*;

use crate::text::{all_digits, char_digit, is_digit};

verus! {

#[verifier::external_type_specification]
#[verifier::external_body]
pub struct ExNaiveDateTime(chrono::NaiveDateTime);

#[verifier::external_type_specification]
#[verifier::external_body]
pub struct ExNaiveDate(chrono::NaiveDate);

/// Calls `chrono::Utc::now()` and takes its `naive_local()` date and time.
/// Nothing is stated of the result: it is the time at the call. (`Utc::now`
/// panics when the system clock reads a time before 1970.)
#[verifier::external_body]
fn utc_now() -> chrono::NaiveDateTime {
    chrono::Utc::now().naive_local()
}

/// Calls `NaiveDateTime::date`. Nothing is stated of the date.
#[verifier::external_body]
fn date_of(dt: &chrono::NaiveDateTime) -> chrono::NaiveDate {
    dt.date()
}

/// Today's date (UTC). It depends on the clock, so nothing is stated of it.
pub(crate) fn utc_today() -> chrono::NaiveDate {
    let now = utc_now();
    date_of(&now)
}

/// A year as `%Y` writes it: four or more digits, with a sign before years
/// outside `0..=9999`.
pub open spec fn year_text(y: Seq<char>) -> bool {
    ||| (y.len() >= 4 && all_digits(y))
    ||| (y.len() >= 5 && (y[0] == '+' || y[0] == '-') && all_digits(y.drop_first()))
}

/// The number written by the two digits at `i` and `i + 1` of `s`.
pub open spec fn two_digits_at(s: Seq<char>, i: int) -> nat {
    char_digit(s[i]) * 10 + char_digit(s[i + 1])
}

/// Two digits at `i` and `i + 1` of `s`, writing a number in `lo..=hi`.
pub open spec fn field_at(s: Seq<char>, i: int, lo: nat, hi: nat) -> bool {
    &&& is_digit(s[i])
    &&& is_digit(s[i + 1])
    &&& lo <= two_digits_at(s, i) <= hi
}

/// A date and time as `%Y-%m-%d %H:%M:%S` writes it: the year, then month
/// (01-12), day (01-31), hour (00-23), minute (00-59) and second (00-60, a leap
/// second included), each in two digits, between `-`, ` ` and `:`.
pub open spec fn time_text_shape(s: Seq<char>) -> bool {
    let n = s.len() as int;
    &&& n >= 19
    &&& year_text(s.take(n - 15))
    &&& s[n - 15] == '-'
    &&& field_at(s, n - 14, 1, 12)
    &&& s[n - 12] == '-'
    &&& field_at(s, n - 11, 1, 31)
    &&& s[n - 9] == ' '
    &&& field_at(s, n - 8, 0, 23)
    &&& s[n - 6] == ':'
    &&& field_at(s, n - 5, 0, 59)
    &&& s[n - 3] == ':'
    &&& field_at(s, n - 2, 0, 60)
}

/// Calls `NaiveDateTime::format_with_items` with `StrftimeItems::new(pattern)` and
/// renders the result with `to_string`. Only the one pattern this library uses is
/// admitted, for which rendering cannot fail. As the crate's `format_numeric`
/// shows, the text has the shape of `time_text_shape` (`write_year` for the year,
/// zero-padded `write_two` for the other fields); which date and time it writes
/// depends on the value given, and is not stated.
#[verifier::external_body]
fn format_date_time(dt: &chrono::NaiveDateTime, pattern: &str) -> (r: String)
    requires
        pattern@ == "%Y-%m-%d %H:%M:%S"@,
    ensures
        time_text_shape(r@),
{
    dt.format_with_items(chrono::format::StrftimeItems::new(pattern)).to_string()
}

/// The current date and time as `YYYY-MM-DD hh:mm:ss`. Which date and time
/// depends on the clock; the shape of the text is stated.
pub fn get_time() -> (r: String)
    ensures
        time_text_shape(r@),
{
    let now = utc_now();
    format_date_time(&now, "%Y-%m-%d %H:%M:%S")
}

} // verus!
