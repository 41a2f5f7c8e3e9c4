//! The proleptic Gregorian calendar as `chrono` counts it, by day numbers.
use vstd::prelude::*;

verus! {

/// A leap year of the proleptic Gregorian calendar.
pub open spec fn is_leap(y: int) -> bool {
    (y % 4 == 0 && y % 100 != 0) || y % 400 == 0
}

/// The number of days of month `m` of year `y`.
pub open spec fn days_in_month(y: int, m: int) -> int {
    if m == 2 {
        if is_leap(y) { 29 } else { 28 }
    } else if m == 4 || m == 6 || m == 9 || m == 11 {
        30
    } else {
        31
    }
}

/// A date that `chrono::NaiveDate` can hold: years -262143 to 262142.
pub open spec fn valid_ymd(y: int, m: int, d: int) -> bool {
    -262143 <= y <= 262142 && 1 <= m <= 12 && 1 <= d <= days_in_month(y, m)
}

/// The days of year `y` before the first of month `m`.
pub open spec fn days_before_month(y: int, m: int) -> int {
    let leap = if is_leap(y) && m > 2 { 1int } else { 0int };
    let before: int = if m <= 1 { 0 } else if m == 2 { 31 } else if m == 3 { 59 } else if m == 4 { 90 } else if m
        == 5 { 120 } else if m == 6 { 151 } else if m == 7 { 181 } else if m == 8 { 212 } else if m
        == 9 { 243 } else if m == 10 { 273 } else if m == 11 { 304 } else { 334 };
    leap + before
}

/// `Datelike::num_days_from_ce`: 1 for 0001-01-01, counting back through 0
/// for 31 December of 1 BCE.
pub open spec fn day_number(y: int, m: int, d: int) -> int {
    365 * (y - 1) + (y - 1) / 4 - (y - 1) / 100 + (y - 1) / 400 + days_before_month(y, m) + d
}

/// The day numbers of the dates that `chrono::NaiveDate` can hold.
pub open spec fn day_number_in_range(n: int) -> bool {
    day_number(-262143, 1, 1) <= n <= day_number(262142, 12, 31)
}

/// The date with day number `n`.
pub open spec fn date_of_day_number(n: int) -> (int, int, int) {
    choose|t: (int, int, int)| valid_ymd(t.0, t.1, t.2) && day_number(t.0, t.1, t.2) == n
}

/// The year, month and day of the date with day number `n`, as chrono's
/// `year()`, `month()` and `day()` give them.
pub open spec fn ymd_of_day_number(n: int) -> (i32, u32, u32) {
    let t = date_of_day_number(n);
    (t.0 as i32, t.1 as u32, t.2 as u32)
}

/// Calls `chrono::NaiveDate::from_ymd_opt` and reads `num_days_from_ce` of
/// the date. The contract claims what chrono documents: a date exists for
/// exactly the valid calendar days of its year range, numbered as above.
#[verifier::external_body]
pub(crate) fn ymd_to_day_number(y: i32, m: u32, d: u32) -> (r: Option<i32>)
    ensures
        r == (if valid_ymd(y as int, m as int, d as int) {
            Some(day_number(y as int, m as int, d as int) as i32)
        } else {
            None::<i32>
        }),
{
    match chrono::NaiveDate::from_ymd_opt(y, m, d) {
        Some(date) => Some(chrono::Datelike::num_days_from_ce(&date)),
        None => None,
    }
}

/// Calls `chrono::NaiveDate::from_num_days_from_ce_opt` and reads the year,
/// month and day of the date. The contract claims that a date comes back for
/// exactly the day numbers in chrono's range, and that it is the date with
/// that day number.
#[verifier::external_body]
pub(crate) fn day_number_to_ymd(n: i32) -> (r: Option<(i32, u32, u32)>)
    ensures
        r == (if day_number_in_range(n as int) {
            Some(ymd_of_day_number(n as int))
        } else {
            None::<(i32, u32, u32)>
        }),
{
    match chrono::NaiveDate::from_num_days_from_ce_opt(n) {
        Some(date) => Some((
            chrono::Datelike::year(&date),
            chrono::Datelike::month(&date),
            chrono::Datelike::day(&date),
        )),
        None => None,
    }
}

/// What `DateTime::<FixedOffset>::to_rfc3339` writes for the local time
/// `y-m-d h:mi:00` at `offset` seconds east of UTC.
pub uninterp spec fn rfc3339_text(y: i32, m: u32, d: u32, h: u32, mi: u32, offset: i32) -> Seq<char>;

/// The local time `y-m-d h:mi:00` can be made at that offset: a valid date
/// and time of day, and an offset of less than a day.
pub open spec fn local_time_ok(y: i32, m: u32, d: u32, h: u32, mi: u32, offset: i32) -> bool {
    valid_ymd(y as int, m as int, d as int) && h < 24 && mi < 60 && -86400 < offset < 86400
}

/// The day number of the UTC date of the local time `y-m-d h:mi` at
/// `offset` seconds east of UTC.
pub open spec fn utc_day_number(y: i32, m: u32, d: u32, h: u32, mi: u32, offset: i32) -> int {
    (day_number(y as int, m as int, d as int) * 86400 + h * 3600 + mi * 60 - offset) / 86400
}

/// Calls `FixedOffset::east_opt(offset)`, `TimeZone::with_ymd_and_hms` and
/// `DateTime::to_rfc3339`. The contract claims what chrono's source shows:
/// a result comes exactly for a valid local time and offset whose UTC date
/// lies in chrono's range; its text is named by `rfc3339_text`.
#[verifier::external_body]
pub(crate) fn rfc3339(y: i32, m: u32, d: u32, h: u32, mi: u32, offset: i32) -> (r: Option<String>)
    ensures
        r.is_some() == (local_time_ok(y, m, d, h, mi, offset) && day_number_in_range(
            utc_day_number(y, m, d, h, mi, offset),
        )),
        r matches Some(t) ==> t@ == rfc3339_text(y, m, d, h, mi, offset),
{
    let off = chrono::FixedOffset::east_opt(offset)?;
    let dt = chrono::TimeZone::with_ymd_and_hms(&off, y, m, d, h, mi, 0).single()?;
    Some(dt.to_rfc3339())
}


/// What `chrono::NaiveDateTime::parse_from_str` reads from a text in a
/// format: year, month, day, hour, minute and second, or nothing.
pub uninterp spec fn parsed_datetime(text: Seq<char>, fmt: Seq<char>) -> Option<(i32, u32, u32, u32, u32, u32)>;

/// Calls `chrono::NaiveDateTime::parse_from_str` and reads the fields of the
/// result. The contract names the result by `parsed_datetime` and claims what
/// chrono's types document of any date and time: a calendar date in chrono's
/// range, an hour below 24, a minute and a second below 60.
#[verifier::external_body]
pub(crate) fn parse_datetime_fields(text: &str, fmt: &str) -> (r: Option<(i32, u32, u32, u32, u32, u32)>)
    ensures
        r == parsed_datetime(text@, fmt@),
        r matches Some(t) ==> valid_ymd(t.0 as int, t.1 as int, t.2 as int) && t.3 < 24 && t.4 < 60 && t.5 < 60,
{
    match chrono::NaiveDateTime::parse_from_str(text, fmt) {
        Ok(dt) => Some((
            chrono::Datelike::year(&dt),
            chrono::Datelike::month(&dt),
            chrono::Datelike::day(&dt),
            chrono::Timelike::hour(&dt),
            chrono::Timelike::minute(&dt),
            chrono::Timelike::second(&dt),
        )),
        Err(_) => None,
    }
}

/// The seconds from midnight of day number 0 to a date and time.
pub open spec fn seconds_of(y: int, m: int, d: int, h: int, mi: int, s: int) -> int {
    day_number(y, m, d) * 86400 + h * 3600 + mi * 60 + s
}

/// A date and time of day that chrono can hold.
pub open spec fn valid_datetime(y: int, m: int, d: int, h: int, mi: int, s: int) -> bool {
    valid_ymd(y, m, d) && 0 <= h < 24 && 0 <= mi < 60 && 0 <= s < 60
}

/// The day number of a valid calendar date lies within a hundred million
/// days of day number 0.
pub proof fn lemma_valid_day_number_bounds(y: int, m: int, d: int)
    requires
        valid_ymd(y, m, d),
    ensures
        -100000000 <= day_number(y, m, d) <= 100000000,
{
}

/// The seconds from midnight of day number 0 to a UTC date and time (see
/// `seconds_of`), where it is a valid one.
pub fn utc_seconds(y: i32, m: u32, d: u32, h: u32, mi: u32, s: u32) -> (r: Option<i64>)
    ensures
        r is Some == valid_datetime(y as int, m as int, d as int, h as int, mi as int, s as int),
        r matches Some(x) ==> x == seconds_of(y as int, m as int, d as int, h as int, mi as int, s as int),
{
    if h >= 24 || mi >= 60 || s >= 60 {
        return None;
    }
    match ymd_to_day_number(y, m, d) {
        Some(dn) => {
            proof {
                lemma_valid_day_number_bounds(y as int, m as int, d as int);
            }
            Some(dn as i64 * 86400 + h as i64 * 3600 + mi as i64 * 60 + s as i64)
        },
        None => None,
    }
}


/// What `chrono::NaiveDate::parse_from_str` reads from a text in a format:
/// year, month and day, or nothing.
pub uninterp spec fn parsed_date(text: Seq<char>, fmt: Seq<char>) -> Option<(i32, u32, u32)>;

/// Calls `chrono::NaiveDate::parse_from_str` and reads the fields of the
/// date. The contract names the result by `parsed_date` and claims that a
/// date that comes back is a calendar date in chrono's range.
#[verifier::external_body]
pub(crate) fn parse_date_fields(text: &str, fmt: &str) -> (r: Option<(i32, u32, u32)>)
    ensures
        r == parsed_date(text@, fmt@),
        r matches Some(t) ==> valid_ymd(t.0 as int, t.1 as int, t.2 as int),
{
    match chrono::NaiveDate::parse_from_str(text, fmt) {
        Ok(d) => Some((chrono::Datelike::year(&d), chrono::Datelike::month(&d), chrono::Datelike::day(&d))),
        Err(_) => None,
    }
}

/// Calls `chrono::Utc::now` and reads the day number of its date and the
/// seconds since its midnight. The contract claims only what chrono's types
/// give of any time: a day number in chrono's range and fewer than 86400
/// seconds; which time it is, is the machine's.
#[verifier::external_body]
pub(crate) fn utc_now_fields() -> (r: (i32, u32))
    ensures
        day_number_in_range(r.0 as int),
        r.1 < 86400,
{
    let now = chrono::Utc::now().naive_utc();
    (chrono::Datelike::num_days_from_ce(&now.date()), chrono::Timelike::num_seconds_from_midnight(&now.time()))
}

/// The time now, in UTC seconds from midnight of day number 0: the seconds
/// of a day in chrono's range (which day and second is the machine's clock).
pub fn utc_now() -> (r: i64)
    ensures
        day_number_in_range(r / 86400),
{
    let (days, secs) = utc_now_fields();
    let r = days as i64 * 86400 + secs as i64;
    assert(r / 86400 == days as int) by (nonlinear_arith)
        requires
            r == days * 86400 + secs,
            0 <= secs < 86400,
    ;
    r
}

/// Calls `chrono::Local::now` and reads the day number of its date. The
/// contract claims only that the day number is in chrono's range; which day
/// it is, is the machine's clock and time zone.
#[verifier::external_body]
pub(crate) fn local_today() -> (r: i32)
    ensures
        day_number_in_range(r as int),
{
    chrono::Datelike::num_days_from_ce(&chrono::Local::now().date_naive())
}

} // verus!
