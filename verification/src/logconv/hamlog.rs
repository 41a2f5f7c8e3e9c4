//! Readers of the HAMLOG CSV row and the HamLog iOS CSV row.
use vstd::prelude::*;
use crate::calendar::{day_number, day_number_in_range, local_time_ok, rfc3339_text, utc_day_number};
use crate::fle::types::{utc_of_seconds, UtcDateTime};
use crate::logconv::adif::{byte_slice, parse_i32_or, parse_u32_or};
use crate::logconv::types::{
    adif_mode_of, airham_mode_of, band_index_from, band_row, byte_len, freq_head, sota_mode_of,
    split_callsign_of, QsoRecord,
};
use crate::pattern::{captures, group_at, group_text, group_views, regex_captures, regex_matches};
use crate::text::{concat2, copy_str, str_upper, strs};

verus! {

/// A HAMLOG date: year, month and day separated by slashes.
pub const RE_HL_DATE: &'static str = "(\\d+)/(\\d+)/(\\d+)";

/// A HAMLOG time: HH:MM and a zone letter (U or Z for UTC, else JST).
pub const RE_HL_TIME: &'static str = "(\\d{2}):(\\d{2})(\\w)?";

/// A HamLog iOS time stamp with its zone offset.
pub const RE_IOS_DT: &'static str = "(\\d{4})-(\\d{2})-(\\d{2}) (\\d{2}):(\\d{2}):(\\d{2}) ([+-]\\d{4})";

/// The shape of a HamLog iOS time stamp.
pub const RE_IOS_DT_SHAPE: &'static str = "\\d{4}-\\d{2}-\\d{2} \\d{2}:\\d{2}:\\d{2}";

/// The text of a string column.
pub open spec fn col(cols: Seq<String>, i: int) -> Seq<char> {
    cols[i]@
}

/// A capture group that took part in the match.
pub open spec fn group_opt(c: Seq<Option<Seq<char>>>, i: int) -> Option<Seq<char>> {
    if 0 <= i < c.len() {
        c[i]
    } else {
        None
    }
}

/// The year of a HAMLOG date: four digits as written (1900 when
/// unreadable), two digits from 1965 to 2064 (65 to 99 in the 1900s).
pub open spec fn hl_year(ys: Seq<char>) -> i32 {
    if byte_len(ys) > 2 {
        parse_i32_or(ys, 1900)
    } else {
        let y = parse_i32_or(ys, 0);
        if y >= 65 { (1900 + y) as i32 } else { (2000 + y) as i32 }
    }
}

/// Year, month and day of a HAMLOG date, when it has that shape.
#[verifier::opaque]
pub open spec fn hl_date(s: Seq<char>) -> Option<(i32, u32, u32)> {
    match regex_captures(RE_HL_DATE@, s) {
        Some(c) => Some(
            (hl_year(group_text(c, 1)), parse_u32_or(group_text(c, 2), 1), parse_u32_or(group_text(c, 3), 1)),
        ),
        None => None,
    }
}

/// Hour, minute and zone offset in hours of a HAMLOG time, when it has
/// that shape: U or Z is UTC, anything else (or nothing) JST.
#[verifier::opaque]
pub open spec fn hl_time(s: Seq<char>) -> Option<(u32, u32, i32)> {
    match regex_captures(RE_HL_TIME@, s) {
        Some(c) => {
            let flag = match group_opt(c, 3) {
                Some(f) => str_upper(f),
                None => Seq::empty(),
            };
            Some(
                (
                    parse_u32_or(group_text(c, 1), 0),
                    parse_u32_or(group_text(c, 2), 0),
                    if flag == "U"@ || flag == "Z"@ { 0i32 } else { 9i32 },
                ),
            )
        },
        None => None,
    }
}

/// The band of a frequency, as `freq_to_band` gives it.
#[verifier::opaque]
pub open spec fn freq_band(f: Seq<char>) -> Option<(&'static str, &'static str, &'static str)> {
    match band_index_from(freq_head(f), 0) {
        Some(i) => Some((band_row(i).2, band_row(i).3, band_row(i).4)),
        None => None,
    }
}

/// The error text of a frequency in no band.
pub open spec fn freq_error(f: Seq<char>) -> Seq<char> {
    "Unknown frequency: "@ + freq_head(f)
}

/// A message added to an error message, after ", " when it is not empty.
pub open spec fn add_message(m: Seq<char>, more: Seq<char>) -> Seq<char> {
    if m.len() > 0 {
        m + ", "@ + more
    } else {
        more
    }
}

/// A text marked in red for display.
pub open spec fn red(s: Seq<char>) -> Seq<char> {
    "<font color=\"red\"><b>"@ + s + "</b></font>"@
}

/// The local time can be converted to UTC (see `crate::calendar::rfc3339`).
pub open spec fn utc_ok(y: i32, m: u32, d: u32, h: u32, mi: u32, off: i32) -> bool {
    local_time_ok(y, m, d, h, mi, off) && day_number_in_range(utc_day_number(y, m, d, h, mi, off))
}

/// The UTC date and time of a local time at an offset in seconds.
pub open spec fn utc_of_local(y: i32, m: u32, d: u32, h: u32, mi: u32, off: i32) -> UtcDateTime {
    utc_of_seconds(day_number(y as int, m as int, d as int) * 86400 + h * 3600 + mi * 60 - off)
}

/// The QSL flags column, upper-cased and padded with three spaces.
#[verifier::opaque]
pub open spec fn qsl_flag(c9: Seq<char>) -> Seq<char> {
    str_upper(c9) + "   "@
}

/// The QSL text: "No Card" for N, "JARL (Bureau)" for J, else the first
/// three bytes of the flags.
#[verifier::opaque]
pub open spec fn qsl_text(c9: Seq<char>) -> Seq<char> {
    let f = qsl_flag(c9);
    if f[0] == 'N' {
        "No Card"@
    } else if f[0] == 'J' {
        "JARL (Bureau)"@
    } else {
        byte_slice(f, 0, 3)->0
    }
}

/// A HAMLOG row that can be read without splitting a character: the QSL
/// text's first three bytes end between characters where they are taken.
pub open spec fn hamlog_row_ok(cols: Seq<String>) -> bool {
    cols.len() < 15 || ({
        let f = qsl_flag(col(cols, 9));
        f[0] == 'N' || f[0] == 'J' || byte_slice(f, 0, 3) is Some
    })
}

/// The local date, time and zone offset (seconds) of a HAMLOG row; an
/// unreadable date counts as 1900-01-01, an unreadable time as 00:00 JST.
#[verifier::opaque]
pub open spec fn hl_local(c1: Seq<char>, c2: Seq<char>) -> (i32, u32, u32, u32, u32, i32) {
    let (y, m, d) = match hl_date(c1) {
        Some(x) => x,
        None => (1900i32, 1u32, 1u32),
    };
    let (h, mi, tz) = match hl_time(c2) {
        Some(x) => x,
        None => (0u32, 0u32, 9i32),
    };
    (y, m, d, h, mi, (tz * 3600) as i32)
}

/// The UTC date and time (year, month, day, hour, minute) and RFC 3339
/// text of a local time, or 1900-01-01 00:00 and no text where it cannot
/// be converted; and whether it could.
#[verifier::opaque]
pub open spec fn hl_stamp(l: (i32, u32, u32, u32, u32, i32)) -> (bool, (i32, u32, u32, u32, u32), Seq<char>) {
    let (y, m, d, h, mi, off) = l;
    if utc_ok(y, m, d, h, mi, off) {
        let u = utc_of_local(y, m, d, h, mi, off);
        (true, (u.year, u.month, u.day, u.hour, u.minute), rfc3339_text(y, m, d, h, mi, off))
    } else {
        (false, (1900i32, 1u32, 1u32, 0u32, 0u32), Seq::empty())
    }
}

/// The error message of a HAMLOG row: its unreadable date, time and
/// frequency, in that order, joined by ", ".
#[verifier::opaque]
pub open spec fn hl_message(c1: Seq<char>, c2: Seq<char>, c5: Seq<char>) -> Seq<char> {
    let m1 = if hl_date(c1) is None { "日付フォーマット不正:"@ + c1 } else { Seq::empty() };
    let m2 = if hl_time(c2) is None { add_message(m1, "時刻フォーマット不正:"@ + c2) } else { m1 };
    if freq_band(c5) is None { add_message(m2, "周波数不正:"@ + freq_error(c5)) } else { m2 }
}

/// A QSO record as read from a HAMLOG row (columns: callsign, date, time,
/// reports sent and received, frequency, mode, code, grid, QSL flags, name,
/// QTH, remarks 1 and 2). The local time (UTC with U or Z, else JST) is
/// converted to UTC; a date, time or frequency that cannot be read marks
/// the record as in error with a message.
pub open spec fn hamlog_record(cols: Seq<String>, q: QsoRecord) -> bool {
    let d = hl_date(col(cols, 1));
    let t = hl_time(col(cols, 2));
    let st = hl_stamp(hl_local(col(cols, 1), col(cols, 2)));
    let fb = freq_band(col(cols, 5));
    let cs = split_callsign_of(col(cols, 0));
    let md = adif_mode_of(col(cols, 6));
    let f = qsl_flag(col(cols, 9));
    &&& q.has_error == (d is None || t is None || !st.0 || fb is None)
    &&& q.error_message@ == hl_message(col(cols, 1), col(cols, 2), col(cols, 5))
    &&& q.date_error@ == (if d is None { red(col(cols, 1)) } else { Seq::empty() })
    &&& q.time_error@ == (if t is None { red(col(cols, 2)) } else { Seq::empty() })
    &&& q.band_error@ == (if fb is None { red(freq_error(col(cols, 5))) } else { Seq::empty() })
    &&& q.callsign@ == col(cols, 0) && q.operator@ == cs.0 && q.portable@ == cs.1
    &&& q.iso_time@ == st.2
    &&& (q.year, q.month, q.day, q.hour, q.minute) == st.1
    &&& q.timezone@ == (if hl_local(col(cols, 1), col(cols, 2)).5 == 0 { "+0000"@ } else { "+0900"@ })
    &&& q.rst_sent@ == col(cols, 3) && q.rst_rcvd@ == col(cols, 4) && q.freq@ == col(cols, 5)
    &&& match fb {
        Some(b) => q.band@ == b.0@ && q.band_sota@ == b.1@ && q.band_wlen@ == b.2@,
        None => q.band@.len() == 0 && q.band_sota@.len() == 0 && q.band_wlen@.len() == 0,
    }
    &&& q.mode@ == md.0 && q.sub_mode@ == md.1
    &&& q.mode_airham@ == airham_mode_of(col(cols, 6), col(cols, 5))
    &&& q.mode_sota@ == sota_mode_of(col(cols, 6))@
    &&& q.code@ == col(cols, 7) && q.gridsquare@ == col(cols, 8)
    &&& q.qsl@ == qsl_text(col(cols, 9))
    &&& q.qsl_sent == (if f[1] != ' ' { 1i32 } else { 0i32 })
    &&& q.qsl_rcvd == (if f[2] != ' ' { 1i32 } else { 0i32 })
    &&& q.name@ == col(cols, 10) && q.qth@ == col(cols, 11)
    &&& q.remarks1@ == col(cols, 12) && q.remarks2@ == col(cols, 13)
}

fn red_exec(s: &str) -> (t: String)
    ensures
        t@ == red(s@),
{
    let mut t = String::from_str("<font color=\"red\"><b>");
    t.append(s);
    t.append("</b></font>");
    t
}

fn add_message_exec(m: &mut String, more: &str)
    ensures
        final(m)@ == add_message(old(m)@, more@),
{
    if !m.as_str().is_empty() {
        m.append(", ");
    }
    m.append(more);
}

fn hl_date_exec(s: &str) -> (r: Option<(i32, u32, u32)>)
    ensures
        r == hl_date(s@),
{    proof {
        reveal(hl_date);
    }
    match captures(RE_HL_DATE, s) {
        Some(g) => {
            let ys = group_at(&g, 1);
            let year: i32 = if ys.as_str().len() > 2 {
                crate::logconv::adif::parse_i32_or_exec(ys.as_str(), 1900)
            } else {
                let y = crate::logconv::adif::parse_i32_or_exec(ys.as_str(), 0);
                if y >= 65 {
                    (1900i64 + y as i64) as i32
                } else {
                    (2000i64 + y as i64) as i32
                }
            };
            let month = crate::logconv::adif::parse_u32_or_exec(group_at(&g, 2).as_str(), 1);
            let day = crate::logconv::adif::parse_u32_or_exec(group_at(&g, 3).as_str(), 1);
            Some((year, month, day))
        },
        None => None,
    }
}

fn hl_time_exec(s: &str) -> (r: Option<(u32, u32, i32)>)
    ensures
        r == hl_time(s@),
{    proof {
        reveal(hl_time);
    }
    match captures(RE_HL_TIME, s) {
        Some(g) => {
            let hour = crate::logconv::adif::parse_u32_or_exec(group_at(&g, 1).as_str(), 0);
            let minute = crate::logconv::adif::parse_u32_or_exec(group_at(&g, 2).as_str(), 0);
            let flag = if g.len() > 3 {
                match &g[3] {
                    Some(f) => crate::text::to_upper(f.as_str()),
                    None => String::new(),
                }
            } else {
                String::new()
            };
            let off: i32 = if crate::text::str_eq(flag.as_str(), "U") || crate::text::str_eq(
                flag.as_str(),
                "Z",
            ) {
                0
            } else {
                9
            };
            Some((hour, minute, off))
        },
        None => None,
    }
}

/// The UTC date and time of a local time (see `utc_of_local`), where
/// `utc_ok` holds.
fn utc_exec(y: i32, m: u32, d: u32, h: u32, mi: u32, off: i32) -> (r: Option<UtcDateTime>)
    ensures
        r is Some == utc_ok(y, m, d, h, mi, off),
        r matches Some(u) ==> u == utc_of_local(y, m, d, h, mi, off),
{
    if !(h < 24 && mi < 60 && -86400 < off && off < 86400) {
        return None;
    }
    match crate::calendar::ymd_to_day_number(y, m, d) {
        Some(dn) => {
            let secs: i64 = dn as i64 * 86400 + h as i64 * 3600 + mi as i64 * 60 - off as i64;
            let day: i64 = if secs >= 0 {
                secs / 86400
            } else {
                -((-secs + 86399) / 86400)
            };
            let rem: i64 = secs - day * 86400;
            assert(day == secs / 86400 && rem == secs % 86400) by (nonlinear_arith)
                requires
                    day == (if secs >= 0 { secs / 86400 } else { -((-secs + 86399) / 86400) }),
                    rem == secs - day * 86400,
            ;
            assert(secs % 3600 == rem % 3600 && secs % 60 == rem % 60) by (nonlinear_arith)
                requires
                    rem == secs % 86400,
            ;
            if day < -2147483648 || day > 2147483647 {
                return None;
            }
            match crate::calendar::day_number_to_ymd(day as i32) {
                Some(t) => Some(
                    UtcDateTime {
                        year: t.0,
                        month: t.1,
                        day: t.2,
                        hour: (rem / 3600) as u32,
                        minute: ((rem % 3600) / 60) as u32,
                        second: (rem % 60) as u32,
                    },
                ),
                None => None,
            }
        },
        None => None,
    }
}

fn hl_local_exec(c1: &str, c2: &str) -> (r: (i32, u32, u32, u32, u32, i32))
    ensures
        r == hl_local(c1@, c2@),
{    proof {
        reveal(hl_local);
        reveal(hl_time);
    }
    let (y, m, d) = match hl_date_exec(c1) {
        Some(x) => x,
        None => (1900i32, 1u32, 1u32),
    };
    let (h, mi, tz) = match hl_time_exec(c2) {
        Some(x) => x,
        None => (0u32, 0u32, 9i32),
    };
    (y, m, d, h, mi, tz * 3600)
}

fn hl_stamp_exec(l: (i32, u32, u32, u32, u32, i32)) -> (r: (bool, (i32, u32, u32, u32, u32), String))
    ensures
        (r.0, r.1, r.2@) == hl_stamp(l),
{    proof {
        reveal(hl_stamp);
    }
    let (y, m, d, h, mi, off) = l;
    match utc_exec(y, m, d, h, mi, off) {
        Some(u) => {
            let iso = match crate::calendar::rfc3339(y, m, d, h, mi, off) {
                Some(t) => t,
                None => String::new(),
            };
            (true, (u.year, u.month, u.day, u.hour, u.minute), iso)
        },
        None => (false, (1900i32, 1u32, 1u32, 0u32, 0u32), String::new()),
    }
}

fn hl_message_exec(c1: &str, c2: &str, c5: &str) -> (r: String)
    ensures
        r@ == hl_message(c1@, c2@, c5@),
{    proof {
        reveal(hl_message);
        reveal(freq_band);
    }
    let mut m = if hl_date_exec(c1).is_none() {
        concat2("日付フォーマット不正:", c1)
    } else {
        String::new()
    };
    if hl_time_exec(c2).is_none() {
        let more = concat2("時刻フォーマット不正:", c2);
        add_message_exec(&mut m, more.as_str());
    }
    match crate::logconv::types::freq_to_band(c5) {
        Ok(_) => {},
        Err(e) => {
            let more = concat2("周波数不正:", e.as_str());
            add_message_exec(&mut m, more.as_str());
        },
    }
    m
}

fn qsl_exec(c9: &str) -> (r: (String, i32, i32))
    requires
        ({
            let f = qsl_flag(c9@);
            f[0] == 'N' || f[0] == 'J' || byte_slice(f, 0, 3) is Some
        }),
    ensures
        r.0@ == qsl_text(c9@),
        r.1 == (if qsl_flag(c9@)[1] != ' ' { 1i32 } else { 0i32 }),
        r.2 == (if qsl_flag(c9@)[2] != ' ' { 1i32 } else { 0i32 }),
{    proof {
        reveal(qsl_text);
        reveal(qsl_flag);
    }
    let mut flag = crate::text::to_upper(c9);
    flag.append("   ");
    let fcs = crate::text::chars_of(flag.as_str());
    proof {
        reveal_strlit("   ");
    }
    let qsl = if fcs[0] == 'N' {
        String::from_str("No Card")
    } else if fcs[0] == 'J' {
        String::from_str("JARL (Bureau)")
    } else {
        match crate::logconv::adif::byte_slice_exec(flag.as_str(), 0, 3) {
            Some(x) => x,
            None => String::new(),
        }
    };
    let sent: i32 = if fcs[1] != ' ' {
        1
    } else {
        0
    };
    let rcvd: i32 = if fcs[2] != ' ' {
        1
    } else {
        0
    };
    (qsl, sent, rcvd)
}

fn band_fields(c5: &str) -> (r: (String, String, String, String, bool))
    ensures
        r.4 == (freq_band(c5@) is None),
        match freq_band(c5@) {
            Some(b) => r.0@ == b.0@ && r.1@ == b.1@ && r.2@ == b.2@ && r.3@ == Seq::<char>::empty(),
            None => r.0@.len() == 0 && r.1@.len() == 0 && r.2@.len() == 0 && r.3@ == freq_error(c5@),
        },
{    proof {
        reveal(freq_band);
    }
    match crate::logconv::types::freq_to_band(c5) {
        Ok(b) => (copy_str(b.0), copy_str(b.1), copy_str(b.2), String::new(), false),
        Err(e) => (String::new(), String::new(), String::new(), e, true),
    }
}

/// Reads a HAMLOG CSV row (see `hamlog_record`); a row of fewer than 15
/// columns is refused.
pub fn decode_hamlog(cols: &[String]) -> (r: Result<QsoRecord, String>)
    requires
        hamlog_row_ok(cols@),
    ensures
        cols@.len() < 15 ==> (r matches Err(e) && e@ == "HAMLOG CSV形式ではありません"@),
        cols@.len() >= 15 ==> (r matches Ok(q) && hamlog_record(cols@, q)),
{
    if cols.len() < 15 {
        return Err(String::from_str("HAMLOG CSV形式ではありません"));
    }
    let cs = crate::logconv::types::split_callsign(cols[0].as_str());
    let date_bad = hl_date_exec(cols[1].as_str()).is_none();
    let time_bad = hl_time_exec(cols[2].as_str()).is_none();
    let local = hl_local_exec(cols[1].as_str(), cols[2].as_str());
    let stamp = hl_stamp_exec(local);
    let band = band_fields(cols[5].as_str());
    let band_bad = band.4;
    let band_error = if band_bad {
        red_exec(band.3.as_str())
    } else {
        String::new()
    };
    let qsl = qsl_exec(cols[9].as_str());
    let md = crate::logconv::types::mode_to_adif_mode(cols[6].as_str());
    let tz = if local.5 == 0 {
        String::from_str("+0000")
    } else {
        String::from_str("+0900")
    };
    let date_error = if date_bad {
        red_exec(cols[1].as_str())
    } else {
        String::new()
    };
    let time_error = if time_bad {
        red_exec(cols[2].as_str())
    } else {
        String::new()
    };
    let q = QsoRecord {
        has_error: date_bad || time_bad || !stamp.0 || band_bad,
        error_message: hl_message_exec(cols[1].as_str(), cols[2].as_str(), cols[5].as_str()),
        date_error,
        time_error,
        band_error,
        callsign: cols[0].clone(),
        operator: cs.0,
        portable: cs.1,
        iso_time: stamp.2,
        year: (stamp.1).0,
        month: (stamp.1).1,
        day: (stamp.1).2,
        hour: (stamp.1).3,
        minute: (stamp.1).4,
        timezone: tz,
        rst_sent: cols[3].clone(),
        rst_rcvd: cols[4].clone(),
        freq: cols[5].clone(),
        band: band.0,
        band_sota: band.1,
        band_wlen: band.2,
        mode: md.0,
        sub_mode: md.1,
        mode_airham: crate::logconv::types::mode_to_airham_mode(cols[6].as_str(), cols[5].as_str()),
        mode_sota: copy_str(crate::logconv::types::mode_to_sota_mode(cols[6].as_str())),
        code: cols[7].clone(),
        gridsquare: cols[8].clone(),
        qsl: qsl.0,
        qsl_sent: qsl.1,
        qsl_rcvd: qsl.2,
        name: cols[10].clone(),
        qth: cols[11].clone(),
        remarks1: cols[12].clone(),
        remarks2: cols[13].clone(),
    };
    Ok(q)
}

/// The zone offset in seconds of a HamLog iOS offset text such as "+0900":
/// hours from its first three bytes, minutes from the next two (0 where
/// unreadable).
pub open spec fn ios_offset(tz: Seq<char>) -> int {
    parse_i32_or(byte_slice(tz, 0, 3)->0, 0) * 3600 + parse_i32_or(byte_slice(tz, 3, 5)->0, 0) * 60
}

/// The UTC date and time and RFC 3339 text of a HamLog iOS time stamp,
/// where it has the right shape and converts.
#[verifier::opaque]
pub open spec fn ios_stamp(s: Seq<char>) -> Option<((i32, u32, u32, u32, u32), Seq<char>)> {
    match regex_captures(RE_IOS_DT@, s) {
        Some(c) => {
            let y = parse_i32_or(group_text(c, 1), 1900);
            let m = parse_u32_or(group_text(c, 2), 1);
            let d = parse_u32_or(group_text(c, 3), 1);
            let h = parse_u32_or(group_text(c, 4), 0);
            let mi = parse_u32_or(group_text(c, 5), 0);
            let off = ios_offset(group_text(c, 7));
            if -86400 < off < 86400 && utc_ok(y, m, d, h, mi, off as i32) {
                let u = utc_of_local(y, m, d, h, mi, off as i32);
                Some(((u.year, u.month, u.day, u.hour, u.minute), rfc3339_text(y, m, d, h, mi, off as i32)))
            } else {
                None
            }
        },
        None => None,
    }
}

/// A HamLog iOS row that can be read without splitting a character: the
/// zone offset's slices end between characters.
pub open spec fn ios_row_ok(cols: Seq<String>) -> bool {
    cols.len() < 19 || match regex_captures(RE_IOS_DT@, col(cols, 0)) {
        Some(c) => byte_slice(group_text(c, 7), 0, 3) is Some && byte_slice(group_text(c, 7), 3, 5) is Some,
        None => true,
    }
}

/// The pieces of the time stamp column between spaces.
pub open spec fn stamp_pieces(s: Seq<char>) -> Seq<Seq<char>> {
    crate::text::split_on(s, ' ')
}

/// A QSO record as read from a HamLog iOS row (columns: time stamp, -,
/// frequency, callsign, reports received and sent, grid, name, QTH, ..,
/// mode, .., remarks 2, QSL, QSL sent and received). The time stamp is
/// converted to UTC; one that cannot be read marks the record as in error,
/// one that does not convert leaves the date and time unset.
pub open spec fn ios_record(cols: Seq<String>, q: QsoRecord) -> bool {
    let c0 = col(cols, 0);
    let shaped = regex_captures(RE_IOS_DT@, c0) is Some;
    let st = ios_stamp(c0);
    let fb = freq_band(col(cols, 2));
    let m1 = if !shaped { "時刻フォーマット不正:"@ + c0 } else { Seq::empty() };
    let msg = if fb is None { add_message(m1, "Frequency out of range:"@ + freq_error(col(cols, 2))) } else { m1 };
    let p = stamp_pieces(c0);
    let cs = split_callsign_of(col(cols, 3));
    let md = adif_mode_of(col(cols, 11));
    &&& q.has_error == (!shaped || fb is None)
    &&& q.error_message@ == msg
    &&& q.date_error@ == (if !shaped { red(p[0]) } else { Seq::empty() })
    &&& q.time_error@ == (if !shaped { red(if p.len() > 1 { p[1] } else { Seq::empty() }) } else { Seq::empty() })
    &&& q.band_error@ == (if fb is None { red(freq_error(col(cols, 2))) } else { Seq::empty() })
    &&& q.callsign@ == col(cols, 3) && q.operator@ == cs.0 && q.portable@ == cs.1
    &&& match st {
        Some(x) => (q.year, q.month, q.day, q.hour, q.minute) == x.0 && q.iso_time@ == x.1
            && q.timezone@ == "+0000"@,
        None => q.year == 0 && q.month == 0 && q.day == 0 && q.hour == 0 && q.minute == 0
            && q.iso_time@.len() == 0 && q.timezone@.len() == 0,
    }
    &&& q.rst_sent@ == col(cols, 5) && q.rst_rcvd@ == col(cols, 4) && q.freq@ == col(cols, 2)
    &&& match fb {
        Some(b) => q.band@ == b.0@ && q.band_sota@ == b.1@ && q.band_wlen@ == b.2@,
        None => q.band@.len() == 0 && q.band_sota@.len() == 0 && q.band_wlen@.len() == 0,
    }
    &&& q.mode@ == md.0 && q.sub_mode@ == md.1
    &&& q.mode_airham@ == airham_mode_of(col(cols, 11), col(cols, 2))
    &&& q.mode_sota@ == sota_mode_of(col(cols, 11))@
    &&& q.code@.len() == 0 && q.gridsquare@ == col(cols, 6)
    &&& q.name@ == col(cols, 7) && q.qth@ == col(cols, 8) && q.remarks1@ == col(cols, 8)
    &&& q.remarks2@ == col(cols, 13) && q.qsl@ == col(cols, 14)
    &&& q.qsl_sent == parse_i32_or(col(cols, 15), 0) && q.qsl_rcvd == parse_i32_or(col(cols, 16), 0)
}

fn ios_stamp_exec(s: &str) -> (r: (bool, Option<((i32, u32, u32, u32, u32), String)>))
    requires
        match regex_captures(RE_IOS_DT@, s@) {
            Some(c) => byte_slice(group_text(c, 7), 0, 3) is Some && byte_slice(group_text(c, 7), 3, 5) is Some,
            None => true,
        },
    ensures
        r.0 == (regex_captures(RE_IOS_DT@, s@) is Some),
        match r.1 {
            Some(x) => ios_stamp(s@) == Some((x.0, x.1@)),
            None => ios_stamp(s@) is None,
        },
{
    proof {
        reveal(ios_stamp);
    }
    match captures(RE_IOS_DT, s) {
        Some(g) => {
            let y = crate::logconv::adif::parse_i32_or_exec(group_at(&g, 1).as_str(), 1900);
            let m = crate::logconv::adif::parse_u32_or_exec(group_at(&g, 2).as_str(), 1);
            let d = crate::logconv::adif::parse_u32_or_exec(group_at(&g, 3).as_str(), 1);
            let h = crate::logconv::adif::parse_u32_or_exec(group_at(&g, 4).as_str(), 0);
            let mi = crate::logconv::adif::parse_u32_or_exec(group_at(&g, 5).as_str(), 0);
            let tz = group_at(&g, 7);
            let hs = match crate::logconv::adif::byte_slice_exec(tz.as_str(), 0, 3) {
                Some(x) => x,
                None => String::new(),
            };
            let ms = match crate::logconv::adif::byte_slice_exec(tz.as_str(), 3, 5) {
                Some(x) => x,
                None => String::new(),
            };
            let th = crate::logconv::adif::parse_i32_or_exec(hs.as_str(), 0);
            let tm = crate::logconv::adif::parse_i32_or_exec(ms.as_str(), 0);
            let off: i64 = th as i64 * 3600 + tm as i64 * 60;
            if -86400 < off && off < 86400 {
                match utc_exec(y, m, d, h, mi, off as i32) {
                    Some(u) => {
                        let iso = match crate::calendar::rfc3339(y, m, d, h, mi, off as i32) {
                            Some(t) => t,
                            None => String::new(),
                        };
                        (true, Some(((u.year, u.month, u.day, u.hour, u.minute), iso)))
                    },
                    None => (true, None),
                }
            } else {
                (true, None)
            }
        },
        None => (false, None),
    }
}

fn piece_or_empty(s: &str, i: usize) -> (r: String)
    ensures
        r@ == (if i < stamp_pieces(s@).len() { stamp_pieces(s@)[i as int] } else { Seq::empty() }),
{
    let cs = crate::text::chars_of(s);
    let ps = crate::text::split(cs.as_slice(), crate::text::SepKind::Char(' '));
    if i < ps.len() {
        assert(crate::text::views(ps@)[i as int] == ps@[i as int]@);
        crate::text::string_of(ps[i].as_slice())
    } else {
        String::new()
    }
}

/// Reads a HamLog iOS CSV row (see `ios_record`); a row of fewer than 19
/// columns is refused.
pub fn decode_hamlog_ios(cols: &[String]) -> (r: Result<QsoRecord, String>)
    requires
        ios_row_ok(cols@),
    ensures
        cols@.len() < 19 ==> (r matches Err(e) && e@ == "Too short columns: "@ + crate::num::dec(
            cols@.len(),
        ) + " < 19"@),
        cols@.len() >= 19 ==> (r matches Ok(q) && ios_record(cols@, q)),
{
    if cols.len() < 19 {
        let mut e = String::from_str("Too short columns: ");
        e.append(crate::num::fmt_u64(cols.len() as u64, 0).as_str());
        e.append(" < 19");
        return Err(e);
    }
    proof {
        crate::text::lemma_split_when_nonempty(col(cols@, 0), crate::text::sep_pred(crate::text::SepKind::Char(' ')));
    }
    let cs = crate::logconv::types::split_callsign(cols[3].as_str());
    let stamp = ios_stamp_exec(cols[0].as_str());
    let band = band_fields(cols[2].as_str());
    let mut msg = if !stamp.0 {
        concat2("時刻フォーマット不正:", cols[0].as_str())
    } else {
        String::new()
    };
    if band.4 {
        let more = concat2("Frequency out of range:", band.3.as_str());
        add_message_exec(&mut msg, more.as_str());
    }
    let band_error = if band.4 {
        red_exec(band.3.as_str())
    } else {
        String::new()
    };
    let (date_error, time_error) = if !stamp.0 {
        (red_exec(piece_or_empty(cols[0].as_str(), 0).as_str()), red_exec(piece_or_empty(cols[0].as_str(), 1).as_str()))
    } else {
        (String::new(), String::new())
    };
    let md = crate::logconv::types::mode_to_adif_mode(cols[11].as_str());
    let (year, month, day, hour, minute, iso, tz) = match stamp.1 {
        Some(x) => ((x.0).0, (x.0).1, (x.0).2, (x.0).3, (x.0).4, x.1, String::from_str("+0000")),
        None => (0i32, 0u32, 0u32, 0u32, 0u32, String::new(), String::new()),
    };
    let q = QsoRecord {
        has_error: !stamp.0 || band.4,
        error_message: msg,
        date_error,
        time_error,
        band_error,
        callsign: cols[3].clone(),
        operator: cs.0,
        portable: cs.1,
        iso_time: iso,
        year,
        month,
        day,
        hour,
        minute,
        timezone: tz,
        rst_sent: cols[5].clone(),
        rst_rcvd: cols[4].clone(),
        freq: cols[2].clone(),
        band: band.0,
        band_sota: band.1,
        band_wlen: band.2,
        mode: md.0,
        sub_mode: md.1,
        mode_airham: crate::logconv::types::mode_to_airham_mode(cols[11].as_str(), cols[2].as_str()),
        mode_sota: copy_str(crate::logconv::types::mode_to_sota_mode(cols[11].as_str())),
        code: String::new(),
        gridsquare: cols[6].clone(),
        qsl: cols[14].clone(),
        qsl_sent: crate::logconv::adif::parse_i32_or_exec(cols[15].as_str(), 0),
        qsl_rcvd: crate::logconv::adif::parse_i32_or_exec(cols[16].as_str(), 0),
        name: cols[7].clone(),
        qth: cols[8].clone(),
        remarks1: cols[8].clone(),
        remarks2: cols[13].clone(),
    };
    Ok(q)
}

/// Reads a row of either HAMLOG format: the first column of a HamLog iOS
/// header row, before a header was seen, gives the error "HEADER"; a row of
/// at least 19 columns whose first holds an iOS time stamp is read as
/// HamLog iOS, any other as HAMLOG.
pub fn decode_auto(cols: &[String], header_seen: bool) -> (r: Result<QsoRecord, String>)
    requires
        ({
            let header = !header_seen && cols@.len() > 0 && crate::text::contains_seq(col(cols@, 0), "TimeOn"@);
            let ios = cols@.len() >= 19 && regex_matches(RE_IOS_DT_SHAPE@, col(cols@, 0));
            header || (ios && ios_row_ok(cols@)) || (!ios && hamlog_row_ok(cols@))
        }),
    ensures
        ({
            let header = !header_seen && cols@.len() > 0 && crate::text::contains_seq(col(cols@, 0), "TimeOn"@);
            let ios = cols@.len() >= 19 && regex_matches(RE_IOS_DT_SHAPE@, col(cols@, 0));
            if header {
                r matches Err(e) && e@ == "HEADER"@
            } else if ios {
                r matches Ok(q) && ios_record(cols@, q)
            } else if cols@.len() < 15 {
                r matches Err(e) && e@ == "HAMLOG CSV形式ではありません"@
            } else {
                r matches Ok(q) && hamlog_record(cols@, q)
            }
        }),
{
    if !header_seen && cols.len() > 0 {
        let c0 = crate::text::chars_of(cols[0].as_str());
        let pat = crate::text::chars_of("TimeOn");
        if crate::text::contains(c0.as_slice(), pat.as_slice()) {
            return Err(String::from_str("HEADER"));
        }
    }
    if cols.len() >= 19 && crate::pattern::is_match(RE_IOS_DT_SHAPE, cols[0].as_str()) {
        return decode_hamlog_ios(cols);
    }
    decode_hamlog(cols)
}

/// Whether a HAMLOG row can be read (see `hamlog_row_ok`).
pub fn hamlog_row_readable(cols: &[String]) -> (r: bool)
    ensures
        r == hamlog_row_ok(cols@),
{
    if cols.len() < 15 {
        return true;
    }
    proof {
        reveal(qsl_flag);
        reveal_strlit("   ");
    }
    let mut flag = crate::text::to_upper(cols[9].as_str());
    flag.append("   ");
    let fcs = crate::text::chars_of(flag.as_str());
    fcs[0] == 'N' || fcs[0] == 'J' || crate::logconv::adif::byte_slice_exec(flag.as_str(), 0, 3).is_some()
}

/// Whether a HamLog iOS row can be read (see `ios_row_ok`).
pub fn ios_row_readable(cols: &[String]) -> (r: bool)
    ensures
        r == ios_row_ok(cols@),
{
    if cols.len() < 19 {
        return true;
    }
    match captures(RE_IOS_DT, cols[0].as_str()) {
        Some(g) => {
            let tz = group_at(&g, 7);
            crate::logconv::adif::byte_slice_exec(tz.as_str(), 0, 3).is_some()
                && crate::logconv::adif::byte_slice_exec(tz.as_str(), 3, 5).is_some()
        },
        None => true,
    }
}

/// Reads a HamLog iOS row (see `decode_hamlog_ios`), or gives `None` for a
/// row whose zone offset cannot be cut without splitting a character.
pub fn try_decode_hamlog_ios(cols: &[String]) -> (r: Option<Result<QsoRecord, String>>)
    ensures
        r is Some == ios_row_ok(cols@),
        r matches Some(x) ==> (cols@.len() < 19 ==> (x matches Err(e) && e@ == "Too short columns: "@
            + crate::num::dec(cols@.len()) + " < 19"@)) && (cols@.len() >= 19 ==> (x matches Ok(q) && ios_record(cols@, q))),
{
    if ios_row_readable(cols) {
        Some(decode_hamlog_ios(cols))
    } else {
        None
    }
}

/// Reads a row of either HAMLOG format (see `decode_auto`), or gives `None`
/// for a row that cannot be read without splitting a character.
pub fn try_decode_auto(cols: &[String], header_seen: bool) -> (r: Option<Result<QsoRecord, String>>)
    ensures
        ({
            let header = !header_seen && cols@.len() > 0 && crate::text::contains_seq(col(cols@, 0), "TimeOn"@);
            let ios = cols@.len() >= 19 && regex_matches(RE_IOS_DT_SHAPE@, col(cols@, 0));
            &&& r is Some == (header || (ios && ios_row_ok(cols@)) || (!ios && hamlog_row_ok(cols@)))
            &&& r matches Some(x) ==> if header {
                x matches Err(e) && e@ == "HEADER"@
            } else if ios {
                x matches Ok(q) && ios_record(cols@, q)
            } else if cols@.len() < 15 {
                x matches Err(e) && e@ == "HAMLOG CSV形式ではありません"@
            } else {
                x matches Ok(q) && hamlog_record(cols@, q)
            }
        }),
{
    let header = if !header_seen && cols.len() > 0 {
        let c0 = crate::text::chars_of(cols[0].as_str());
        let pat = crate::text::chars_of("TimeOn");
        crate::text::contains(c0.as_slice(), pat.as_slice())
    } else {
        false
    };
    let ios = cols.len() >= 19 && crate::pattern::is_match(RE_IOS_DT_SHAPE, cols[0].as_str());
    let ok = header || (ios && ios_row_readable(cols)) || (!ios && hamlog_row_readable(cols));
    if ok {
        Some(decode_auto(cols, header_seen))
    } else {
        None
    }
}

} // verus!
