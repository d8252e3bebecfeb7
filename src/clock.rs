use vstd::prelude::*;

use chrono::{DateTime, Datelike, Local, NaiveDateTime, TimeZone, Utc};

use crate::twentry::valid_instant;
use crate::json_model::is_digit_char;
use crate::window::{days_from_ce, days_in_month, CalendarDate};

verus! {

/// The instant, in seconds since the epoch read as UTC, that a text of the
/// form `YYYYMMDDThhmmssZ` names; `None` when the text is not of that form.
pub uninterp spec fn timestamp_of(s: Seq<char>) -> Option<int>;

/// The number that the `n` decimal digits of `s` from index `i` on write.
pub open spec fn digits_value(s: Seq<char>, i: int, n: int) -> int
    decreases n,
{
    if n <= 0 {
        0
    } else {
        digits_value(s, i, n - 1) * 10 + ((s[i + n - 1] as u32) - 48)
    }
}

/// Whether `s` is exactly `YYYYMMDDThhmmssZ`, all digits, naming a real
/// date and a time of day without a leap second.
pub open spec fn is_plain_timestamp(s: Seq<char>) -> bool {
    let y = digits_value(s, 0, 4);
    let mo = digits_value(s, 4, 2);
    let d = digits_value(s, 6, 2);
    &&& s.len() == 16
    &&& forall|k: int| (0 <= k < 8 || 9 <= k < 15) ==> is_digit_char(#[trigger] s[k])
    &&& s[8] == 'T'
    &&& s[15] == 'Z'
    &&& 1 <= mo <= 12
    &&& 1 <= d <= days_in_month(y, mo)
    &&& digits_value(s, 9, 2) <= 23
    &&& digits_value(s, 11, 2) <= 59
    &&& digits_value(s, 13, 2) <= 59
}

/// The seconds since the epoch that a text of the form `is_plain_timestamp` names.
pub open spec fn plain_timestamp_value(s: Seq<char>) -> int {
    let days = days_from_ce(digits_value(s, 0, 4), digits_value(s, 4, 2), digits_value(s, 6, 2));
    (days - 719163) * 86400 + digits_value(s, 9, 2) * 3600 + digits_value(s, 11, 2) * 60
        + digits_value(s, 13, 2)
}

/// Relies on `NaiveDateTime::parse_from_str` with the format
/// `%Y%m%dT%H%M%SZ`, and on `DateTime::timestamp` of the result read as UTC.
/// The bound on the result holds as `timestamp` computes it from a day count
/// that is an `i32` and the seconds of a day. Without a sign, `%Y` reads at
/// most four digits and the other fields two, so a text of exactly that
/// shape names the instant its fields give, counting days from January 1 of
/// year 1 as day 1 and the epoch as day 719163.
#[verifier::external_body]
pub(crate) fn parse_timestamp(s: &str) -> (r: Option<i64>)
    ensures
        r is Some <==> timestamp_of(s@) is Some,
        is_plain_timestamp(s@) ==> r == Some(plain_timestamp_value(s@) as i64),
        r is Some ==> r->Some_0 == timestamp_of(s@)->Some_0 && valid_instant(r->Some_0 as int),
{
    match NaiveDateTime::parse_from_str(s, "%Y%m%dT%H%M%SZ") {
        Ok(t) => Some(t.and_utc().timestamp()),
        Err(_) => None,
    }
}

/// Relies on `Utc::now` and `DateTime::timestamp`: the current instant, in
/// seconds since the epoch. The bound holds as for `parse_timestamp`.
#[verifier::external_body]
pub(crate) fn now_timestamp() -> (r: i64)
    ensures
        valid_instant(r as int),
{
    Utc::now().timestamp()
}

/// Instants that have a local calendar date lie strictly between minus and
/// plus this bound, in seconds since the epoch: well inside the years that
/// chrono can hold, with room for any local offset.
pub const LOCAL_DATE_BOUND: i64 = 4398046511104;

pub open spec fn has_local_date(t: int) -> bool {
    -LOCAL_DATE_BOUND < t < LOCAL_DATE_BOUND
}

/// The day count, as `days_from_ce` counts, of the UTC date of an instant.
pub open spec fn utc_day_number(t: int) -> int {
    719163 + t / 86400
}

/// Whether `d` is a calendar date that an instant `t` can have in some time
/// zone: a real date whose day count is within one day of `t`'s UTC date.
pub open spec fn is_local_date_of(d: CalendarDate, t: int) -> bool {
    &&& 1 <= d.month <= 12
    &&& 1 <= d.day <= days_in_month(d.year as int, d.month as int)
    &&& d.day_number == days_from_ce(d.year as int, d.month as int, d.day as int)
    &&& -1 <= d.day_number - utc_day_number(t) <= 1
}

/// Relies on `DateTime::from_timestamp`, `Local::from_utc_datetime` and
/// `DateTime::date_naive`, with the `Datelike` getters: the calendar date,
/// in the local time zone, of an instant given in seconds since the epoch.
/// `num_days_from_ce` counts days of the proleptic Gregorian calendar from
/// January 1 of year 1 as day 1, and the epoch falls on its day 719163.
/// Local offsets are `FixedOffset`s, strictly within a day of UTC.
#[verifier::external_body]
pub(crate) fn local_date(secs: i64) -> (r: CalendarDate)
    requires
        has_local_date(secs as int),
    ensures
        is_local_date_of(r, secs as int),
{
    let utc = DateTime::from_timestamp(secs, 0).unwrap();
    let d = Local.from_utc_datetime(&utc.naive_utc()).date_naive();
    CalendarDate { year: d.year(), month: d.month(), day: d.day(), day_number: d.num_days_from_ce() }
}

} // verus!
