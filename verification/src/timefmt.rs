//! Showing a reset time, given as epoch seconds or RFC 3339, in local time.
use vstd::prelude::*;
use chrono::{DateTime, FixedOffset, Local, Utc};
use crate::text::{all_digits, is_digit, parse_i64, parsed_i64};

verus! {

/// Seconds since the epoch of -262143-01-01T00:00:00Z (January 1, 262144
/// BCE), the first instant chrono's calendar holds.
pub open spec fn earliest_timestamp() -> int {
    -8334601228800
}

/// Seconds since the epoch of December 31, 262142 CE, 23:59:59 UTC, the last
/// whole second chrono's calendar holds.
pub open spec fn latest_timestamp() -> int {
    8210266876799
}

/// The strftime pattern for a short local time stamp: month, day, hour and
/// minute.
pub open spec fn short_stamp_pattern() -> Seq<char> {
    seq!['%', 'm', '-', '%', 'd', ' ', '%', 'H', ':', '%', 'M']
}

pub open spec fn two_digits(t: Seq<char>, at: int, low: int, high: int) -> bool {
    &&& '0' <= t[at] && t[at] <= '9'
    &&& '0' <= t[at + 1] && t[at + 1] <= '9'
    &&& low <= (t[at] as int - '0' as int) * 10 + (t[at + 1] as int - '0' as int) <= high
}

/// `MM-DD HH:MM` with a month 01-12, a day 01-31, an hour 00-23 and a minute
/// 00-59.
pub open spec fn is_short_stamp(t: Seq<char>) -> bool {
    &&& t.len() == 11
    &&& two_digits(t, 0, 1, 12)
    &&& t[2] == '-'
    &&& two_digits(t, 3, 1, 31)
    &&& t[5] == ' '
    &&& two_digits(t, 6, 0, 23)
    &&& t[8] == ':'
    &&& two_digits(t, 9, 0, 59)
}

/// Whether `year` is a leap year of the proleptic Gregorian calendar.
pub open spec fn is_leap_year(year: int) -> bool {
    year % 4 == 0 && (year % 100 != 0 || year % 400 == 0)
}

/// The number of days in a month (1-12) of the given year.
pub open spec fn days_in_month(year: int, month: int) -> int {
    if month == 2 {
        if is_leap_year(year) { 29 } else { 28 }
    } else if month == 4 || month == 6 || month == 9 || month == 11 {
        30
    } else {
        31
    }
}

/// Days from 1970-01-01 to the given date of the proleptic Gregorian
/// calendar (negative before it). Counting years from March, the leap day
/// falls at the end of a year: `365 * y + y / 4 - y / 100 + y / 400` days
/// precede March 1 of year `y + 1` counted from March 1 of year 0, and
/// `(153 * m + 2) / 5` days precede the `m`-th month after March.
pub open spec fn days_from_civil(year: int, month: int, day: int) -> int {
    let y = if month <= 2 { year - 1 } else { year };
    let m = if month <= 2 { month + 9 } else { month - 3 };
    365 * y + y / 4 - y / 100 + y / 400 + (153 * m + 2) / 5 + day - 1 - 719468
}

/// The value of the decimal digit at `i`.
pub open spec fn digit_at(s: Seq<char>, i: int) -> int {
    s[i] as int - '0' as int
}

/// The value of the two decimal digits at `i` and `i + 1`.
pub open spec fn two_digit_value(s: Seq<char>, i: int) -> int {
    digit_at(s, i) * 10 + digit_at(s, i + 1)
}

/// The text shows, as `MM-DD HH:MM`, the calendar time `local` (seconds
/// since 1970-01-01 00:00 of the same calendar): in some year the month
/// has that day, and the minute that starts on it at that hour and minute
/// holds `local`.
pub open spec fn stamp_shows(text: Seq<char>, local: int) -> bool {
    let month = two_digit_value(text, 0);
    let day = two_digit_value(text, 3);
    let minute = two_digit_value(text, 6) * 3600 + two_digit_value(text, 9) * 60;
    exists|year: int|
        {
            &&& day <= days_in_month(year, month)
            &&& #[trigger] days_from_civil(year, month, day) * 86400 + minute <= local
            &&& local < days_from_civil(year, month, day) * 86400 + minute + 60
        }
}

/// The text shows the instant `secs` (seconds since the epoch) at some UTC
/// offset that a time zone can have, less than a day either way.
pub open spec fn shows_instant(text: Seq<char>, secs: int) -> bool {
    exists|local: int| -86400 < local - secs < 86400 && #[trigger] stamp_shows(text, local)
}

/// `DateTime::<Utc>::from_timestamp(secs, 0)`, then `with_timezone(&Local)`,
/// `format(pattern)` and `to_string()`. The instant exists exactly when the
/// seconds fall within chrono's calendar (its `NaiveDate::MIN` and `MAX`).
/// The text is the instant formatted at the machine's local offset, a
/// `FixedOffset` of less than a day; which offset that is depends on the
/// machine's time zone and is not stated. chrono documents `%m`, `%d`, `%H`
/// and `%M` as two zero-padded digits in their ranges; they show the month,
/// day, hour and minute of the local calendar time (`naive_local`, which
/// steps one day past either end of the calendar to the adjacent date
/// rather than fail, naive/datetime/mod.rs `overflowing_add_offset`). The conversion and
/// formatting stand in the same item as the construction because the
/// instant is a `DateTime<Tz>` value, which this library does not hold.
/// chrono panics when the system time-zone data gives no offset for the
/// instant; that depends on the machine, not on the arguments, and is not
/// excluded here.
#[verifier::external_body]
fn epoch_as_local_text(secs: i64, pattern: &str) -> (r: Option<String>)
    requires
        pattern@ == short_stamp_pattern(),
    ensures
        r is Some <==> earliest_timestamp() <= secs <= latest_timestamp(),
        r matches Some(t) ==> is_short_stamp(t@) && shows_instant(t@, secs as int),
{
    match DateTime::<Utc>::from_timestamp(secs, 0) {
        Some(instant) => Some(instant.with_timezone(&Local).format(pattern).to_string()),
        None => None,
    }
}

/// The instant that chrono's RFC 3339 parser reads from the text, as whole
/// seconds since the epoch (`DateTime::timestamp`), or `None` when the
/// parser rejects the text.
pub uninterp spec fn rfc3339_instant(s: Seq<char>) -> Option<int>;

pub open spec fn ascii_digit_at(s: Seq<char>, i: int) -> bool {
    '0' <= s[i] && s[i] <= '9'
}

/// What chrono's RFC 3339 parser checks first: at least 19 characters, laid
/// out as `YYYY-MM-DDTHH:MM:SS` (`T` in either case, or a space).
pub open spec fn rfc3339_prefix(s: Seq<char>) -> bool {
    &&& s.len() >= 19
    &&& ascii_digit_at(s, 0) && ascii_digit_at(s, 1) && ascii_digit_at(s, 2) && ascii_digit_at(s, 3)
    &&& s[4] == '-'
    &&& ascii_digit_at(s, 5) && ascii_digit_at(s, 6)
    &&& s[7] == '-'
    &&& ascii_digit_at(s, 8) && ascii_digit_at(s, 9)
    &&& (s[10] == 'T' || s[10] == 't' || s[10] == ' ')
    &&& ascii_digit_at(s, 11) && ascii_digit_at(s, 12)
    &&& s[13] == ':'
    &&& ascii_digit_at(s, 14) && ascii_digit_at(s, 15)
    &&& s[16] == ':'
    &&& ascii_digit_at(s, 17) && ascii_digit_at(s, 18)
}

/// The year of an RFC 3339 text: its first four digits.
pub open spec fn rfc3339_year(s: Seq<char>) -> int {
    two_digit_value(s, 0) * 100 + two_digit_value(s, 2)
}

/// A fraction of a second: `.` and one or more digits.
pub open spec fn is_fraction(f: Seq<char>) -> bool {
    &&& f.len() >= 2
    &&& f[0] == '.'
    &&& forall|i: int| 1 <= i < f.len() ==> ascii_digit_at(f, i)
}

/// The UTC offset that closes an RFC 3339 time, in seconds east of UTC: `Z`
/// (either case) is 0; `+HH:MM` or `-HH:MM` has an hour 00-23 and a minute
/// 00-59.
pub open spec fn rfc3339_offset(z: Seq<char>) -> Option<int> {
    if z.len() == 1 && (z[0] == 'Z' || z[0] == 'z') {
        Some(0)
    } else if z.len() == 6 && (z[0] == '+' || z[0] == '-') && ascii_digit_at(z, 1)
        && ascii_digit_at(z, 2) && z[3] == ':' && ascii_digit_at(z, 4) && ascii_digit_at(z, 5)
        && two_digit_value(z, 1) <= 23 && two_digit_value(z, 4) <= 59 {
        let east = two_digit_value(z, 1) * 3600 + two_digit_value(z, 4) * 60;
        Some(if z[0] == '-' { -east } else { east })
    } else {
        None
    }
}

/// How many characters the offset at the end of the text takes.
pub open spec fn rfc3339_offset_len(s: Seq<char>) -> int {
    if s.last() == 'Z' || s.last() == 'z' { 1 } else { 6 }
}

/// The offset at the end of the text.
pub open spec fn rfc3339_zone(s: Seq<char>) -> Seq<char> {
    s.subrange(s.len() - rfc3339_offset_len(s), s.len() as int)
}

/// An RFC 3339 time: `YYYY-MM-DDTHH:MM:SS` with a date of the calendar, an
/// hour 00-23, a minute 00-59 and a second 00-60 (60 being a leap second),
/// then an optional fraction of a second, then an offset (`Z`, or `+HH:MM`
/// or `-HH:MM` under a day).
pub open spec fn rfc3339_time_text(s: Seq<char>) -> bool {
    &&& rfc3339_prefix(s)
    &&& s.len() >= 19 + rfc3339_offset_len(s)
    &&& rfc3339_offset(rfc3339_zone(s)) is Some
    &&& {
        let middle = s.subrange(19, s.len() - rfc3339_offset_len(s));
        middle.len() == 0 || is_fraction(middle)
    }
    &&& 1 <= two_digit_value(s, 5) <= 12
    &&& 1 <= two_digit_value(s, 8) <= days_in_month(rfc3339_year(s), two_digit_value(s, 5))
    &&& two_digit_value(s, 11) <= 23
    &&& two_digit_value(s, 14) <= 59
    &&& two_digit_value(s, 17) <= 60
}

/// The whole seconds since the epoch of such a text: its calendar time less
/// its offset; a leap second counts as the second before it, and the
/// fraction is dropped.
pub open spec fn rfc3339_time_seconds(s: Seq<char>) -> int {
    let second = two_digit_value(s, 17);
    days_from_civil(rfc3339_year(s), two_digit_value(s, 5), two_digit_value(s, 8)) * 86400
        + two_digit_value(s, 11) * 3600 + two_digit_value(s, 14) * 60
        + (if second == 60 { 59 } else { second }) - rfc3339_offset(rfc3339_zone(s))->0
}

/// `DateTime::parse_from_rfc3339(s)`, then `with_timezone(&Local)`,
/// `format(pattern)` and `to_string()`. The instant read is named by
/// `rfc3339_instant`; chrono's parser rejects any text that does not start
/// with the fixed `YYYY-MM-DDTHH:MM:SS` layout (format/parse.rs checks those
/// 19 bytes before anything else). A text of the form
/// `YYYY-MM-DDTHH:MM:SS[.frac](Z|+HH:MM|-HH:MM)` with a valid date, time and
/// offset is accepted, and its instant is the one that the calendar gives
/// (format/parse.rs `parse_rfc3339`: `NaiveDate::from_ymd_opt`,
/// `NaiveTime::from_hms_nano_opt` with a leap second kept as second 59,
/// `scan::nanosecond`, `scan::timezone_offset` and `FixedOffset::east_opt`);
/// what other texts the parser accepts (a `−` sign for the offset), and their
/// instants, are left to the name. As above, the text shows that instant at the
/// machine's local offset, which is not stated.
#[verifier::external_body]
fn rfc3339_as_local_text(s: &str, pattern: &str) -> (r: Option<String>)
    requires
        pattern@ == short_stamp_pattern(),
    ensures
        r is Some <==> rfc3339_instant(s@) is Some,
        r is Some ==> rfc3339_prefix(s@),
        rfc3339_time_text(s@) ==> r is Some,
        rfc3339_time_text(s@) ==> (r is Some <==> rfc3339_instant(s@) == Some(
            rfc3339_time_seconds(s@),
        )),
        r matches Some(t) ==> is_short_stamp(t@) && shows_instant(t@, rfc3339_instant(s@)->0),
{
    match DateTime::<FixedOffset>::parse_from_rfc3339(s) {
        Ok(instant) => Some(instant.with_timezone(&Local).format(pattern).to_string()),
        Err(_) => None,
    }
}

/// Epoch seconds within chrono's calendar, if the text is an integer.
pub open spec fn epoch_seconds(value: Seq<char>) -> Option<int> {
    match parsed_i64(value) {
        Some(secs) => if earliest_timestamp() <= secs <= latest_timestamp() {
            Some(secs as int)
        } else {
            None
        },
        None => None,
    }
}

/// The instant a stored time stands for: epoch seconds, or else an RFC 3339
/// time.
pub open spec fn timestamp_instant(value: Seq<char>) -> Option<int> {
    match epoch_seconds(value) {
        Some(secs) => Some(secs),
        None => rfc3339_instant(value),
    }
}

/// A text laid out as an RFC 3339 time is not a number of epoch seconds.
proof fn lemma_rfc3339_text_is_not_epoch(s: Seq<char>)
    requires
        rfc3339_prefix(s),
    ensures
        epoch_seconds(s) is None,
{
    assert(!is_digit(s[10]));
    assert(!all_digits(s));
}

/// Reads epoch seconds, or else an RFC 3339 time, and shows it in local time
/// as `MM-DD HH:MM`.
pub fn parse_timestamp_display(value: &str) -> (r: Option<String>)
    ensures
        r is Some <==> timestamp_instant(value@) is Some,
        r is Some ==> epoch_seconds(value@) is Some || rfc3339_prefix(value@),
        rfc3339_time_text(value@) ==> r is Some && timestamp_instant(value@) == Some(
            rfc3339_time_seconds(value@),
        ),
        r matches Some(t) ==> is_short_stamp(t@) && shows_instant(
            t@,
            timestamp_instant(value@)->0,
        ),
{
    proof {
        reveal_strlit("%m-%d %H:%M");
        assert("%m-%d %H:%M"@ =~= short_stamp_pattern());
        if rfc3339_time_text(value@) {
            lemma_rfc3339_text_is_not_epoch(value@);
        }
    }
    if let Some(secs) = parse_i64(value) {
        if let Some(text) = epoch_as_local_text(secs, "%m-%d %H:%M") {
            return Some(text);
        }
    }
    rfc3339_as_local_text(value, "%m-%d %H:%M")
}

} // verus!
