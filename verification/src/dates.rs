//! Calendar dates as `YYYY-MM-DD` text: of an instant, today's local date, and
//! commit timestamps seen in local time. Instants and their calendar dates come
//! from the `time` crate.

use vstd::prelude::*;

use crate::text::{padded_int, push_char, push_padded};

verus! {

/// The earliest Unix timestamp that `time` represents (-9999-01-01T00:00:00Z).
pub const MIN_TIMESTAMP: i64 = -377705116800i64;

/// The latest Unix timestamp that `time` represents (9999-12-31T23:59:59Z).
pub const MAX_TIMESTAMP: i64 = 253402300799i64;

/// The largest number of seconds a UTC offset of `time` can have (25:59:59).
pub const MAX_OFFSET_SECONDS: i32 = 93599i32;

/// Whether `t` is a timestamp `time` can turn into a date.
pub open spec fn timestamp_in_range(t: int) -> bool {
    MIN_TIMESTAMP <= t <= MAX_TIMESTAMP
}

/// Gregorian leap years.
pub open spec fn is_leap_year(y: int) -> bool {
    (y % 4 == 0 && y % 100 != 0) || y % 400 == 0
}

/// The number of days in month `m` of year `y`.
pub open spec fn days_in_month(y: int, m: int) -> int {
    if m == 2 {
        if is_leap_year(y) {
            29
        } else {
            28
        }
    } else if m == 4 || m == 6 || m == 9 || m == 11 {
        30
    } else {
        31
    }
}

/// A valid proleptic Gregorian date.
pub open spec fn valid_date(y: int, m: int, d: int) -> bool {
    1 <= m <= 12 && 1 <= d <= days_in_month(y, m)
}

/// Days from 1970-01-01 to the given proleptic Gregorian date (negative before it).
pub open spec fn days_from_civil(y: int, m: int, d: int) -> int {
    let yy = if m <= 2 {
        y - 1
    } else {
        y
    };
    let era = yy / 400;
    let yoe = yy - era * 400;
    let mp = if m > 2 {
        m - 3
    } else {
        m + 9
    };
    let doy = (153 * mp + 2) / 5 + d - 1;
    let doe = yoe * 365 + yoe / 4 - yoe / 100 + doy;
    era * 146097 + doe - 719468
}

/// `(y, m, d)` is the UTC calendar date of the instant `t` (seconds since the epoch).
pub open spec fn is_date_of(y: int, m: int, d: int, t: int) -> bool {
    valid_date(y, m, d) && days_from_civil(y, m, d) == t / 86400
}

/// `OffsetDateTime::from_unix_timestamp(t)` followed by `.date()`: the UTC
/// calendar date of the instant `t`, as year, month number and day.
#[verifier::external_body]
pub(crate) fn utc_date_of(t: i64) -> (r: Option<(i32, u8, u8)>)
    requires
        timestamp_in_range(t as int),
    ensures
        r.is_some(),
        is_date_of(r.unwrap().0 as int, r.unwrap().1 as int, r.unwrap().2 as int, t as int),
{
    match time::OffsetDateTime::from_unix_timestamp(t) {
        Ok(dt) => Some((dt.year(), u8::from(dt.month()), dt.day())),
        Err(_) => None,
    }
}

/// `OffsetDateTime::now_utc().unix_timestamp()`: the current instant in whole
/// seconds. It depends on the clock; all that is stated is that it lies in the
/// range `time` represents.
#[verifier::external_body]
pub(crate) fn now_timestamp() -> (t: i64)
    ensures
        timestamp_in_range(t as int),
{
    time::OffsetDateTime::now_utc().unix_timestamp()
}

/// `UtcOffset::current_local_offset()` in whole seconds, or `None` when the
/// offset cannot be determined (`IndeterminateOffset`). It depends on the
/// machine's time zone; all that is stated is the range of a `UtcOffset`.
#[verifier::external_body]
fn current_local_offset() -> (off: Option<i32>)
    ensures
        off matches Some(x) ==> -MAX_OFFSET_SECONDS <= x <= MAX_OFFSET_SECONDS,
{
    match time::UtcOffset::current_local_offset() {
        Ok(o) => Some(o.whole_seconds()),
        Err(_) => None,
    }
}

/// The offset to use: the machine's, or UTC (0) when it is unknown.
pub fn local_offset_or_utc(o: Option<i32>) -> (r: i32)
    ensures
        r == match o {
            Some(x) => x,
            None => 0i32,
        },
{
    match o {
        Some(x) => x,
        None => 0,
    }
}

/// The machine's UTC offset in seconds, or UTC when it cannot be determined.
pub fn local_offset() -> (off: i32)
    ensures
        -MAX_OFFSET_SECONDS <= off <= MAX_OFFSET_SECONDS,
{
    local_offset_or_utc(current_local_offset())
}

/// `format!("{:04}-{:02}-{:02}", year, month, day)`.
pub open spec fn iso_date_spec(y: int, m: int, d: int) -> Seq<char> {
    padded_int(y, 4) + seq!['-'] + padded_int(m, 2) + seq!['-'] + padded_int(d, 2)
}

/// Formats a calendar date as `YYYY-MM-DD`.
pub fn format_iso_date(year: i32, month: u8, day: u8) -> (s: String)
    ensures
        s@ == iso_date_spec(year as int, month as int, day as int),
{
    let mut s = String::new();
    push_padded(&mut s, year as i64, 4);
    push_char(&mut s, '-');
    push_padded(&mut s, month as i64, 2);
    push_char(&mut s, '-');
    push_padded(&mut s, day as i64, 2);
    assert(s@ =~= iso_date_spec(year as int, month as int, day as int));
    s
}

/// The `YYYY-MM-DD` text of the UTC date of instant `t`.
pub open spec fn date_text_of(t: int, text: Seq<char>) -> bool {
    exists|y: int, m: int, d: int| is_date_of(y, m, d, t) && text == iso_date_spec(y, m, d)
}

/// The `YYYY-MM-DD` text of the UTC date of an in-range instant.
pub fn date_text(t: i64) -> (s: String)
    requires
        timestamp_in_range(t as int),
    ensures
        date_text_of(t as int, s@),
{
    let (y, m, d) = match utc_date_of(t) {
        Some(ymd) => ymd,
        None => (0, 0, 0),
    };
    format_iso_date(y, m, d)
}


/// What `OffsetDateTime::parse(s, &Rfc3339)` gives for a text, as the Unix
/// timestamp of the parsed instant, or `None` when it does not parse.
pub uninterp spec fn spec_rfc3339_timestamp(s: Seq<char>) -> Option<int>;

/// `OffsetDateTime::parse(s, &Rfc3339)` and `unix_timestamp()`: the instant an
/// RFC 3339 date-time names, in whole seconds. Its result is named, not
/// stated: the grammar is RFC 3339's.
#[verifier::external_body]
fn rfc3339_timestamp(s: &str) -> (r: Option<i64>)
    ensures
        match r {
            Some(t) => spec_rfc3339_timestamp(s@) == Some(t as int),
            None => spec_rfc3339_timestamp(s@) is None,
        },
{
    match time::OffsetDateTime::parse(s, &time::format_description::well_known::Rfc3339) {
        Ok(dt) => Some(dt.unix_timestamp()),
        Err(_) => None,
    }
}

/// The local calendar date of a parsed instant `t` seen at UTC offset `offset`
/// (`to_offset(offset)` then `.date()`): the UTC date of `t + offset`.
/// `None` where that local date-time lies outside the range `time` represents.
pub open spec fn local_date_ok(t: int, offset: int, r: Option<Seq<char>>) -> bool {
    if timestamp_in_range(t + offset) {
        r is Some && date_text_of(t + offset, r->0)
    } else {
        r is None
    }
}

/// `iso_to_local_date` given what parsing the text gave: the local date of the
/// parsed instant, or the first ten characters of the text when it did not
/// parse.
pub open spec fn local_date_from_parsed_ok(
    iso: Seq<char>,
    parsed: Option<int>,
    offset: int,
    r: Option<Seq<char>>,
) -> bool {
    match parsed {
        Some(t) => local_date_ok(t, offset, r),
        None => r == Some(iso.take(if iso.len() < 10 {
            iso.len() as int
        } else {
            10
        })),
    }
}

/// The view of an optional string.
pub open spec fn opt_string_view(o: Option<String>) -> Option<Seq<char>> {
    match o {
        Some(s) => Some(s@),
        None => None,
    }
}

/// The local date text of an instant parsed from `iso` (or `iso`'s first ten
/// characters when it did not parse), at UTC offset `offset` seconds.
pub fn local_date_from_parsed(iso: &str, parsed: Option<i64>, offset: i32) -> (r: Option<String>)
    requires
        -MAX_OFFSET_SECONDS <= offset <= MAX_OFFSET_SECONDS,
    ensures
        local_date_from_parsed_ok(
            iso@,
            match parsed {
                Some(t) => Some(t as int),
                None => None,
            },
            offset as int,
            opt_string_view(r),
        ),
{
    match parsed {
        Some(t) => local_date_at(t, offset),
        None => {
            let v = crate::text::chars_of(iso);
            let n = if v.len() < 10 {
                v.len()
            } else {
                10
            };
            Some(crate::text::string_of(crate::text::slice_prefix(v.as_slice(), n).as_slice()))
        },
    }
}

/// The local `YYYY-MM-DD` date of an RFC 3339 date-time at UTC offset
/// `offset`, or its first ten characters when it does not parse. `None` where
/// the local date-time is outside the range `time` represents.
pub fn iso_to_local_date(iso: &str, offset: i32) -> (r: Option<String>)
    requires
        -MAX_OFFSET_SECONDS <= offset <= MAX_OFFSET_SECONDS,
    ensures
        local_date_from_parsed_ok(iso@, spec_rfc3339_timestamp(iso@), offset as int, opt_string_view(r)),
{
    let parsed = rfc3339_timestamp(iso);
    local_date_from_parsed(iso, parsed, offset)
}

/// Today's local date, `YYYY-MM-DD`: the date of the current instant at the
/// machine's UTC offset. `None` where that local date-time is outside the
/// range `time` represents.
pub fn today_str() -> (r: Option<String>)
    ensures
        exists|now: int, offset: int|
            timestamp_in_range(now) && -MAX_OFFSET_SECONDS <= offset <= MAX_OFFSET_SECONDS
                && local_date_ok(now, offset, opt_string_view(r)),
{
    let now = now_timestamp();
    let offset = local_offset();
    local_date_at(now, offset)
}

/// The local date of instant `now` at UTC offset `offset`.
pub fn local_date_at(now: i64, offset: i32) -> (r: Option<String>)
    ensures
        local_date_ok(now as int, offset as int, opt_string_view(r)),
{
    let shifted: i128 = now as i128 + offset as i128;
    if shifted < MIN_TIMESTAMP as i128 || shifted > MAX_TIMESTAMP as i128 {
        None
    } else {
        Some(date_text(shifted as i64))
    }
}

} // verus!
