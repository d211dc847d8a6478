//! The time, and how points in time are written.

use vstd::prelude::*;

verus! {

/// A point in time, seconds and nanoseconds since 1970, as text; nothing where it is out of range.
pub uninterp spec fn rfc3339_text(secs: i64, nanos: u32) -> Option<Seq<char>>;

/// The day of a point in time, as year, month and day; nothing where it is out of range.
pub uninterp spec fn date_text(secs: i64, nanos: u32) -> Option<Seq<char>>;

/// Whether seconds and nanoseconds since 1970 are a point in time that the calendar reaches: one of the
/// years from -262143 to 262142. More nanoseconds than a second has stand for a leap second, at the end
/// of a minute.
pub open spec fn is_time(secs: int, nanos: u32) -> bool {
    &&& -8_334_601_228_800 <= secs <= 8_210_266_876_799
    &&& nanos < 1_000_000_000 || (nanos < 2_000_000_000 && secs % 60 == 59)
}

/// Whether the clock can show the point in time: it is none before 1970.
pub open spec fn is_reading(secs: i64, nanos: u32) -> bool {
    0 <= secs <= 8_210_266_876_799 && nanos < 1_000_000_000
}

/// Whether the point in time lies in one of the years from 0 to 9999.
pub open spec fn has_short_year(secs: i64) -> bool {
    -62_167_219_200 <= secs <= 253_402_300_799
}

/// Whether `s` is written as four digits, two digits and two digits with hyphens in between.
pub open spec fn is_date(s: Seq<char>) -> bool {
    &&& s.len() == 10
    &&& forall|i: int|
        0 <= i < 10 ==> if i == 4 || i == 7 {
            #[trigger] s[i] == '-'
        } else {
            '0' <= s[i] <= '9'
        }
}

/// Calls `chrono::Utc::now` and reads the time as seconds and nanoseconds since 1970.
///
/// The contract claims the range that every reading lies in. Which one comes depends on the clock. A clock
/// that is set before 1970 or past the end of the calendar makes the call panic.
#[verifier::external_body]
pub(crate) fn utc_now() -> (r: (i64, u32))
    ensures
        is_reading(r.0, r.1),
{
    let now = chrono::Utc::now();
    (now.timestamp(), now.timestamp_subsec_nanos())
}

/// Calls `chrono::DateTime::<Utc>::from_timestamp`, and `to_rfc3339` on what it returns.
///
/// The contract claims that the result depends on the arguments alone, and that there is one exactly where
/// they are a point in time. How the text is written is left to the crate.
#[verifier::external_body]
pub(crate) fn timestamp_text(secs: i64, nanos: u32) -> (r: Option<String>)
    ensures
        crate::writeback::opt_text(r) == rfc3339_text(secs, nanos),
        r is Some <==> is_time(secs as int, nanos),
{
    match chrono::DateTime::<chrono::Utc>::from_timestamp(secs, nanos) {
        Some(t) => Some(t.to_rfc3339()),
        None => None,
    }
}

/// Calls `chrono::DateTime::<Utc>::from_timestamp`, and `format` on what it returns.
///
/// The contract claims that the result depends on the arguments alone, that there is one exactly where they
/// are a point in time, and how it is written in the years from 0 to 9999. Which day it is, and how a year
/// is written that has more digits or a sign, is left to the crate.
#[verifier::external_body]
fn day_of(secs: i64, nanos: u32) -> (r: Option<String>)
    ensures
        crate::writeback::opt_text(r) == date_text(secs, nanos),
        r is Some <==> is_time(secs as int, nanos),
        has_short_year(secs) ==> (r matches Some(d) ==> is_date(d@)),
{
    match chrono::DateTime::<chrono::Utc>::from_timestamp(secs, nanos) {
        Some(t) => Some(t.format("%Y-%m-%d").to_string()),
        None => None,
    }
}

/// Whether `s` is the day that a reading of the clock falls on.
pub open spec fn is_day(s: Seq<char>) -> bool {
    exists|secs: i64, nanos: u32| #[trigger] is_day_of(s, secs, nanos)
}

/// Whether `s` is the day that the given reading of the clock falls on.
pub open spec fn is_day_of(s: Seq<char>, secs: i64, nanos: u32) -> bool {
    &&& is_reading(secs, nanos)
    &&& date_text(secs, nanos) == Some(s)
    &&& has_short_year(secs) ==> is_date(s)
}

/// Today.
pub(crate) fn utc_date() -> (r: String)
    ensures
        is_day(r@),
{
    let now: (i64, u32) = utc_now();
    let day: String = day_of(now.0, now.1).unwrap();
    assert(is_day_of(day@, now.0, now.1));
    day
}

} // verus!
