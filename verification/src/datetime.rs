//! Date-time parsing, through the `chrono` crate. Each parse is named over the
//! text and the format it is given.
use vstd::prelude::*;
use chrono::{DateTime, Datelike, NaiveDateTime, TimeZone, Utc};
use std::fmt::Write;
use crate::text::{decimal, signed_decimal, push_decimal, push_str, isize_to_string, string_of};

verus! {

/// What `NaiveDateTime::parse_from_str(s, fmt)` gives, read as a UTC instant: its
/// Unix timestamp, or the text of the parse error.
pub uninterp spec fn naive_parse(s: Seq<char>, fmt: Seq<char>) -> Result<i64, Seq<char>>;

/// What `DateTime::parse_from_str(s, fmt)` (a date-time with its UTC offset) gives:
/// its Unix timestamp, or the text of the parse error.
pub uninterp spec fn offset_parse(s: Seq<char>, fmt: Seq<char>) -> Result<i64, Seq<char>>;

/// The view of a parse result.
pub open spec fn parsed_view(r: Result<i64, String>) -> Result<i64, Seq<char>> {
    match r {
        Ok(t) => Ok(t),
        Err(e) => Err(e@),
    }
}

/// `NaiveDateTime::parse_from_str(s, fmt)`, then `.and_utc().timestamp()`; the
/// error is the parse error's text. The result is named `naive_parse(s, fmt)`.
#[verifier::external_body]
pub(crate) fn parse_naive_utc(s: &str, fmt: &str) -> (r: Result<i64, String>)
    ensures
        parsed_view(r) == naive_parse(s@, fmt@),
{
    match NaiveDateTime::parse_from_str(s, fmt) {
        Ok(d) => Ok(d.and_utc().timestamp()),
        Err(e) => Err(e.to_string()),
    }
}

/// `DateTime::parse_from_str(s, fmt)`, then `.timestamp()`; the error is the parse
/// error's text. The result is named `offset_parse(s, fmt)`.
#[verifier::external_body]
pub(crate) fn parse_with_offset(s: &str, fmt: &str) -> (r: Result<i64, String>)
    ensures
        parsed_view(r) == offset_parse(s@, fmt@),
{
    match DateTime::parse_from_str(s, fmt) {
        Ok(d) => Ok(d.timestamp()),
        Err(e) => Err(e.to_string()),
    }
}

/// The Unix timestamps (in seconds) that name a date between the years -262143 and
/// 262142, the range of calendar dates the time library represents.
pub open spec fn utc_representable(ts: int) -> bool {
    -8334601228800 <= ts <= 8210266876799
}

/// What the time library writes for the UTC date-time of the Unix timestamp `ts` in
/// the format `fmt`: the text, or `None` when the format cannot be written.
pub uninterp spec fn utc_formatted(ts: i64, fmt: Seq<char>) -> Option<Seq<char>>;

/// The view of an optional string.
pub open spec fn opt_text(r: Option<String>) -> Option<Seq<char>> {
    match r {
        Some(t) => Some(t@),
        None => None,
    }
}

/// `Utc.timestamp_opt(ts, 0)` formatted with `fmt` (`format(fmt)`, written out with
/// `write!`); `None` when writing fails, as it does for a format the time library
/// cannot read. The result is named `utc_formatted(ts, fmt)`; for a representable
/// `ts` the time library gives a date.
#[verifier::external_body]
pub(crate) fn format_utc(ts: i64, fmt: &str) -> (r: Option<String>)
    requires
        utc_representable(ts as int),
    ensures
        opt_text(r) == utc_formatted(ts, fmt@),
{
    let mut out = String::new();
    match write!(out, "{}", Utc.timestamp_opt(ts, 0).unwrap().format(fmt)) {
        Ok(()) => Some(out),
        Err(_) => None,
    }
}

/// The ISO week number and the calendar year of the UTC date of the Unix
/// timestamp `ts`.
pub uninterp spec fn utc_iso_week(ts: i64) -> (u32, i32);

/// The ISO week number (`iso_week().week()`) and the calendar year (`year()`) of
/// `Utc.timestamp_opt(ts, 0)`. The result is named `utc_iso_week(ts)`; for a
/// representable `ts` the time library gives a date.
#[verifier::external_body]
pub(crate) fn iso_week_of(ts: i64) -> (r: (u32, i32))
    requires
        utc_representable(ts as int),
    ensures
        r == utc_iso_week(ts),
{
    let d = Utc.timestamp_opt(ts, 0).unwrap();
    (d.iso_week().week(), d.year())
}

/// The label of the UTC date of `ts`: year, month and day as `%Y-%m-%d` writes
/// them (empty if the time library could not write it).
pub open spec fn utc_day_label(ts: i64) -> Seq<char> {
    match utc_formatted(ts, "%Y-%m-%d"@) {
        Some(t) => t,
        None => Seq::empty(),
    }
}

/// The label of the ISO week of `ts`: `Week {week} of {year}`.
pub open spec fn utc_week_label(ts: i64) -> Seq<char> {
    "Week "@ + decimal(utc_iso_week(ts).0 as nat) + " of "@ + signed_decimal(utc_iso_week(ts).1 as int)
}

/// The label of the UTC date of `ts` (see `utc_day_label`).
pub fn day_label(ts: i64) -> (r: String)
    requires
        utc_representable(ts as int),
    ensures
        r@ == utc_day_label(ts),
{
    match format_utc(ts, "%Y-%m-%d") {
        Some(t) => t,
        None => String::new(),
    }
}

/// The label of the ISO week of `ts` (see `utc_week_label`).
pub fn week_label(ts: i64) -> (r: String)
    requires
        utc_representable(ts as int),
    ensures
        r@ == utc_week_label(ts),
{
    let (week, year) = iso_week_of(ts);
    let mut v: Vec<char> = Vec::new();
    push_str(&mut v, "Week ");
    push_decimal(&mut v, week as u64);
    push_str(&mut v, " of ");
    let y = isize_to_string(year as isize);
    push_str(&mut v, y.as_str());
    string_of(v.as_slice())
}

} // verus!
