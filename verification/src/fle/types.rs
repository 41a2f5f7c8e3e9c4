//! Types shared by the FLE tokenizer, compiler and output formatters.
use vstd::prelude::*;
use crate::calendar::{day_number, day_number_in_range, valid_ymd, ymd_of_day_number};
use crate::num::dec;
use crate::text::str_eq;

verus! {

/// How a mode reports signal: RST (CW, RTTY), RS (phone) or S/N (FT8 and kin).
#[derive(Debug, Clone, Copy, PartialEq, Eq, Structural)]
pub enum RstType {
    Rst,
    Rs,
    Snr,
}

/// The signal report of a mode, looked up by its lower-case name.
pub open spec fn mode_table(mode: Seq<char>) -> Option<RstType> {
    if mode == "cw"@ || mode == "rtty"@ || mode == "rty"@ || mode == "psk"@ || mode == "psk31"@ {
        Some(RstType::Rst)
    } else if mode == "ssb"@ || mode == "fm"@ || mode == "am"@ || mode == "dv"@ || mode
        == "fusion"@ || mode == "dstar"@ || mode == "d-star"@ || mode == "dmr"@ || mode
        == "c4fm"@ || mode == "freedv"@ {
        Some(RstType::Rs)
    } else if mode == "jt9"@ || mode == "jt65"@ || mode == "ft8"@ || mode == "ft4"@ || mode
        == "js8"@ {
        Some(RstType::Snr)
    } else {
        None
    }
}

/// Looks a lower-case mode name up in the mode table.
pub fn mode_table_get(mode: &str) -> (r: Option<RstType>)
    ensures
        r == mode_table(mode@),
{
    if str_eq(mode, "cw") || str_eq(mode, "rtty") || str_eq(mode, "rty") || str_eq(mode, "psk")
        || str_eq(mode, "psk31") {
        Some(RstType::Rst)
    } else if str_eq(mode, "ssb") || str_eq(mode, "fm") || str_eq(mode, "am") || str_eq(mode, "dv")
        || str_eq(mode, "fusion") || str_eq(mode, "dstar") || str_eq(mode, "d-star") || str_eq(
        mode,
        "dmr",
    ) || str_eq(mode, "c4fm") || str_eq(mode, "freedv") {
        Some(RstType::Rs)
    } else if str_eq(mode, "jt9") || str_eq(mode, "jt65") || str_eq(mode, "ft8") || str_eq(
        mode,
        "ft4",
    ) || str_eq(mode, "js8") {
        Some(RstType::Snr)
    } else {
        None
    }
}

/// The number of operands of a directive keyword (-1: the rest of the line).
pub open spec fn keyword_table(key: Seq<char>) -> Option<i8> {
    if key == "qslmsg"@ || key == "qslmsg2"@ {
        Some(-1i8)
    } else if key == "consecutive"@ {
        Some(0i8)
    } else if key == "mycall"@ || key == "operator"@ || key == "mywwff"@ || key == "mysota"@ || key
        == "mypota"@ || key == "nickname"@ || key == "date"@ || key == "day"@ || key == "rigset"@
        || key == "timezone"@ || key == "number"@ {
        Some(1i8)
    } else {
        None
    }
}

/// Looks a lower-case word up in the keyword table.
pub fn keyword_table_get(key: &str) -> (r: Option<i8>)
    ensures
        r == keyword_table(key@),
{
    if str_eq(key, "qslmsg") || str_eq(key, "qslmsg2") {
        Some(-1i8)
    } else if str_eq(key, "consecutive") {
        Some(0i8)
    } else if str_eq(key, "mycall") || str_eq(key, "operator") || str_eq(key, "mywwff") || str_eq(
        key,
        "mysota",
    ) || str_eq(key, "mypota") || str_eq(key, "nickname") || str_eq(key, "date") || str_eq(
        key,
        "day",
    ) || str_eq(key, "rigset") || str_eq(key, "timezone") || str_eq(key, "number") {
        Some(1i8)
    } else {
        None
    }
}

/// A signal report.
#[derive(Debug, Clone)]
pub enum RstValue {
    /// Readability, strength and tone.
    Rst { r: u8, s: u8, t: u8 },
    /// Readability and strength.
    Rs { r: u8, s: u8 },
    /// A signal-to-noise ratio as written, such as "-10".
    Snr(String),
}

/// The plain value of a `RstValue`.
pub enum RstView {
    Rst { r: u8, s: u8, t: u8 },
    Rs { r: u8, s: u8 },
    Snr(Seq<char>),
}

impl View for RstValue {
    type V = RstView;

    open spec fn view(&self) -> RstView {
        match self {
            RstValue::Rst { r, s, t } => RstView::Rst { r: *r, s: *s, t: *t },
            RstValue::Rs { r, s } => RstView::Rs { r: *r, s: *s },
            RstValue::Snr(v) => RstView::Snr(v@),
        }
    }
}

/// The text of a report: its digits run together, or the S/N as written.
pub open spec fn rst_text(v: RstView) -> Seq<char> {
    match v {
        RstView::Rst { r, s, t } => dec(r as nat) + dec(s as nat) + dec(t as nat),
        RstView::Rs { r, s } => dec(r as nat) + dec(s as nat),
        RstView::Snr(x) => x,
    }
}

/// The report 599.
pub open spec fn rst_599() -> RstView {
    RstView::Rst { r: 5, s: 9, t: 9 }
}

/// The report that `digits` digits of `value` give: one digit is the
/// strength of a 5x9, two are RS, three are RST; other counts give 599.
pub open spec fn rst_of_digits(value: u32, digits: usize) -> RstView {
    if digits == 1 {
        RstView::Rst { r: 5, s: (value % 10) as u8, t: 9 }
    } else if digits == 2 {
        RstView::Rs { r: ((value / 10) % 10) as u8, s: (value % 10) as u8 }
    } else if digits == 3 {
        RstView::Rst {
            r: ((value / 100) % 10) as u8,
            s: ((value / 10) % 10) as u8,
            t: (value % 10) as u8,
        }
    } else {
        rst_599()
    }
}

impl Default for RstValue {
    fn default() -> (r: Self)
        ensures
            r@ == rst_599(),
    {
        RstValue::Rst { r: 5, s: 9, t: 9 }
    }
}

impl RstValue {
    /// The report 59.
    pub fn default_rs() -> (r: Self)
        ensures
            r@ == (RstView::Rs { r: 5, s: 9 }),
    {
        RstValue::Rs { r: 5, s: 9 }
    }

    /// The S/N report "-10".
    pub fn default_snr() -> (r: Self)
        ensures
            r@ == RstView::Snr("-10"@),
    {
        RstValue::Snr(String::from_str("-10"))
    }

    /// The report written with `digits` digits as the number `value`.
    pub fn parse_rst(value: u32, digits: usize) -> (r: Self)
        ensures
            r@ == rst_of_digits(value, digits),
    {
        if digits == 1 {
            RstValue::Rst { r: 5, s: (value % 10) as u8, t: 9 }
        } else if digits == 2 {
            RstValue::Rs { r: ((value / 10) % 10) as u8, s: (value % 10) as u8 }
        } else if digits == 3 {
            RstValue::Rst {
                r: ((value / 100) % 10) as u8,
                s: ((value / 10) % 10) as u8,
                t: (value % 10) as u8,
            }
        } else {
            RstValue::Rst { r: 5, s: 9, t: 9 }
        }
    }

    /// The text of the report (see `rst_text`).
    pub fn to_string(&self) -> (r: String)
        ensures
            r@ == rst_text(self@),
    {
        match self {
            RstValue::Rst { r, s, t } => {
                let mut out = crate::num::fmt_u64(*r as u64, 0);
                out.append(crate::num::fmt_u64(*s as u64, 0).as_str());
                out.append(crate::num::fmt_u64(*t as u64, 0).as_str());
                out
            },
            RstValue::Rs { r, s } => {
                let mut out = crate::num::fmt_u64(*r as u64, 0);
                out.append(crate::num::fmt_u64(*s as u64, 0).as_str());
                out
            },
            RstValue::Snr(v) => v.clone(),
        }
    }

    /// A copy of the report.
    pub fn duplicate(&self) -> (r: Self)
        ensures
            r@ == self@,
    {
        match self {
            RstValue::Rst { r, s, t } => RstValue::Rst { r: *r, s: *s, t: *t },
            RstValue::Rs { r, s } => RstValue::Rs { r: *r, s: *s },
            RstValue::Snr(v) => RstValue::Snr(v.clone()),
        }
    }
}

/// An error found while compiling, at a line (counted from 0) and a column.
#[derive(Debug, Clone)]
pub struct FleError {
    pub line: usize,
    pub column: usize,
    pub message: String,
}

/// The plain value of a `FleError`.
pub struct FleErrorView {
    pub line: usize,
    pub column: usize,
    pub message: Seq<char>,
}

impl View for FleError {
    type V = FleErrorView;

    open spec fn view(&self) -> FleErrorView {
        FleErrorView { line: self.line, column: self.column, message: self.message@ }
    }
}

/// The plain values of a sequence of errors.
pub open spec fn error_views(v: Seq<FleError>) -> Seq<FleErrorView> {
    v.map_values(|e: FleError| e@)
}

impl FleError {
    pub fn new(line: usize, column: usize, message: &str) -> (r: Self)
        ensures
            r@ == (FleErrorView { line, column, message: message@ }),
    {
        FleError { line, column, message: String::from_str(message) }
    }
}


/// The QSO that the line being compiled describes.
#[derive(Debug, Clone)]
pub struct CurrentQsoState {
    pub year: u16,
    pub month: u8,
    pub day: u8,
    pub hour: u8,
    pub min: u8,
    pub band: String,
    pub freq: String,
    pub mode: String,
    pub rigset: u8,
    pub call: String,
    pub his_wwff: String,
    pub his_sota: String,
    pub his_pota: Vec<String>,
    pub rst_sent: RstValue,
    pub rst_rcvd: RstValue,
    pub his_num: String,
    pub my_num: String,
    pub qso_msg: String,
    pub qso_rmks: String,
    pub qsl_msg: String,
}

/// The plain value of a `CurrentQsoState`.
pub struct CurrentQsoView {
    pub year: u16,
    pub month: u8,
    pub day: u8,
    pub hour: u8,
    pub min: u8,
    pub band: Seq<char>,
    pub freq: Seq<char>,
    pub mode: Seq<char>,
    pub rigset: u8,
    pub call: Seq<char>,
    pub his_wwff: Seq<char>,
    pub his_sota: Seq<char>,
    pub his_pota: Seq<Seq<char>>,
    pub rst_sent: RstView,
    pub rst_rcvd: RstView,
    pub his_num: Seq<char>,
    pub my_num: Seq<char>,
    pub qso_msg: Seq<char>,
    pub qso_rmks: Seq<char>,
    pub qsl_msg: Seq<char>,
}

impl View for CurrentQsoState {
    type V = CurrentQsoView;

    open spec fn view(&self) -> CurrentQsoView {
        CurrentQsoView {
            year: self.year,
            month: self.month,
            day: self.day,
            hour: self.hour,
            min: self.min,
            band: self.band@,
            freq: self.freq@,
            mode: self.mode@,
            rigset: self.rigset,
            call: self.call@,
            his_wwff: self.his_wwff@,
            his_sota: self.his_sota@,
            his_pota: crate::text::strs(self.his_pota@),
            rst_sent: self.rst_sent@,
            rst_rcvd: self.rst_rcvd@,
            his_num: self.his_num@,
            my_num: self.my_num@,
            qso_msg: self.qso_msg@,
            qso_rmks: self.qso_rmks@,
            qsl_msg: self.qsl_msg@,
        }
    }
}

/// The QSO state before anything is known: all zero and empty, reports 599.
pub open spec fn blank_current() -> CurrentQsoView {
    CurrentQsoView {
        year: 0,
        month: 0,
        day: 0,
        hour: 0,
        min: 0,
        band: Seq::empty(),
        freq: Seq::empty(),
        mode: Seq::empty(),
        rigset: 0,
        call: Seq::empty(),
        his_wwff: Seq::empty(),
        his_sota: Seq::empty(),
        his_pota: Seq::empty(),
        rst_sent: rst_599(),
        rst_rcvd: rst_599(),
        his_num: Seq::empty(),
        my_num: Seq::empty(),
        qso_msg: Seq::empty(),
        qso_rmks: Seq::empty(),
        qsl_msg: Seq::empty(),
    }
}

impl Default for CurrentQsoState {
    fn default() -> (r: Self)
        ensures
            r@ == blank_current(),
    {
        let r = CurrentQsoState {
            year: 0,
            month: 0,
            day: 0,
            hour: 0,
            min: 0,
            band: String::new(),
            freq: String::new(),
            mode: String::new(),
            rigset: 0,
            call: String::new(),
            his_wwff: String::new(),
            his_sota: String::new(),
            his_pota: Vec::new(),
            rst_sent: RstValue::Rst { r: 5, s: 9, t: 9 },
            rst_rcvd: RstValue::Rst { r: 5, s: 9, t: 9 },
            his_num: String::new(),
            my_num: String::new(),
            qso_msg: String::new(),
            qso_rmks: String::new(),
            qsl_msg: String::new(),
        };
        assert(r@.his_pota =~= Seq::<Seq<char>>::empty());
        r
    }
}

/// The compiler's environment: the directives read so far, the base date,
/// the QSO being read and the errors found.
#[derive(Debug, Clone)]
pub struct FleEnvironment {
    pub mycall: String,
    pub operator: String,
    pub qslmsg: String,
    pub qslmsg2: String,
    pub mywwff: String,
    pub mysota: String,
    pub mypota: Vec<String>,
    pub nickname: String,
    pub rigset: u8,
    pub timezone: Option<i32>,
    pub year: u16,
    pub month: u8,
    pub day: u8,
    pub current: CurrentQsoState,
    pub errors: Vec<FleError>,
    pub contest_num: Option<u32>,
    pub contest_lit: Option<String>,
}

/// The plain value of a `FleEnvironment`.
pub struct FleEnvView {
    pub mycall: Seq<char>,
    pub operator: Seq<char>,
    pub qslmsg: Seq<char>,
    pub qslmsg2: Seq<char>,
    pub mywwff: Seq<char>,
    pub mysota: Seq<char>,
    pub mypota: Seq<Seq<char>>,
    pub nickname: Seq<char>,
    pub rigset: u8,
    pub timezone: Option<i32>,
    pub year: u16,
    pub month: u8,
    pub day: u8,
    pub current: CurrentQsoView,
    pub errors: Seq<FleErrorView>,
    pub contest_num: Option<u32>,
    pub contest_lit: Option<Seq<char>>,
}

/// The plain value of an optional string.
pub open spec fn opt_view(o: Option<String>) -> Option<Seq<char>> {
    match o {
        Some(s) => Some(s@),
        None => None,
    }
}

impl View for FleEnvironment {
    type V = FleEnvView;

    open spec fn view(&self) -> FleEnvView {
        FleEnvView {
            mycall: self.mycall@,
            operator: self.operator@,
            qslmsg: self.qslmsg@,
            qslmsg2: self.qslmsg2@,
            mywwff: self.mywwff@,
            mysota: self.mysota@,
            mypota: crate::text::strs(self.mypota@),
            nickname: self.nickname@,
            rigset: self.rigset,
            timezone: self.timezone,
            year: self.year,
            month: self.month,
            day: self.day,
            current: self.current@,
            errors: error_views(self.errors@),
            contest_num: self.contest_num,
            contest_lit: opt_view(self.contest_lit),
        }
    }
}

/// The environment before any line: base date 2000-01-01, nothing else set.
pub open spec fn initial_env() -> FleEnvView {
    FleEnvView {
        mycall: Seq::empty(),
        operator: Seq::empty(),
        qslmsg: Seq::empty(),
        qslmsg2: Seq::empty(),
        mywwff: Seq::empty(),
        mysota: Seq::empty(),
        mypota: Seq::empty(),
        nickname: Seq::empty(),
        rigset: 0,
        timezone: None,
        year: 2000,
        month: 1,
        day: 1,
        current: blank_current(),
        errors: Seq::empty(),
        contest_num: None,
        contest_lit: None,
    }
}

impl Default for FleEnvironment {
    fn default() -> (r: Self)
        ensures
            r@ == initial_env(),
    {
        let r = FleEnvironment {
            mycall: String::new(),
            operator: String::new(),
            qslmsg: String::new(),
            qslmsg2: String::new(),
            mywwff: String::new(),
            mysota: String::new(),
            mypota: Vec::new(),
            nickname: String::new(),
            rigset: 0,
            timezone: None,
            year: 2000,
            month: 1,
            day: 1,
            current: CurrentQsoState::default(),
            errors: Vec::new(),
            contest_num: None,
            contest_lit: None,
        };
        assert(r@.mypota =~= Seq::<Seq<char>>::empty());
        assert(r@.errors =~= Seq::<FleErrorView>::empty());
        r
    }
}

/// The QSO state after a line: the station, references, messages, contest
/// numbers and reports are cleared; date, time, band, mode and rig stay.
pub open spec fn reset_qso(c: CurrentQsoView) -> CurrentQsoView {
    CurrentQsoView {
        call: Seq::empty(),
        his_wwff: Seq::empty(),
        his_sota: Seq::empty(),
        his_pota: Seq::empty(),
        qso_msg: Seq::empty(),
        qso_rmks: Seq::empty(),
        qsl_msg: Seq::empty(),
        his_num: Seq::empty(),
        my_num: Seq::empty(),
        rst_sent: rst_599(),
        rst_rcvd: rst_599(),
        ..c
    }
}

/// A date and time of day in UTC.
#[derive(Debug, Clone, Copy, PartialEq, Eq, Structural)]
pub struct UtcDateTime {
    pub year: i32,
    pub month: u32,
    pub day: u32,
    pub hour: u32,
    pub minute: u32,
    pub second: u32,
}

/// The day number of 1970-01-01, the date that stands in for an invalid one.
pub open spec fn epoch_day() -> int {
    day_number(1970, 1, 1)
}

/// The local time of the QSO in seconds from day number 0: an invalid date
/// counts as 1970-01-01, and an invalid time of day as 1970-01-01 00:00.
pub open spec fn local_seconds(c: CurrentQsoView) -> int {
    if c.hour < 24 && c.min < 60 {
        let dn = if valid_ymd(c.year as int, c.month as int, c.day as int) {
            day_number(c.year as int, c.month as int, c.day as int)
        } else {
            epoch_day()
        };
        dn * 86400 + c.hour * 3600 + c.min * 60
    } else {
        epoch_day() * 86400
    }
}

/// The offset east of UTC in seconds that a time zone in hours gives: the
/// hours times 3600 in 32-bit arithmetic, and 0 unless that is within a day.
pub open spec fn tz_seconds(tz: Option<i32>) -> int {
    match tz {
        Some(h) => {
            let s = h.wrapping_mul(3600i32);
            if -86400 < s && s < 86400 {
                s as int
            } else {
                0
            }
        },
        None => 0,
    }
}

/// The UTC date and time `secs` seconds after the start of day number 0.
pub open spec fn utc_of_seconds(secs: int) -> UtcDateTime {
    let t = ymd_of_day_number(secs / 86400);
    UtcDateTime {
        year: t.0,
        month: t.1,
        day: t.2,
        hour: ((secs % 86400) / 3600) as u32,
        minute: ((secs % 3600) / 60) as u32,
        second: (secs % 60) as u32,
    }
}

/// The day number of a date with a year in `u16`, a month of 1 to 12 and a
/// day of 1 to 31 is small, and the days on either side of it are in
/// chrono's range.
pub proof fn lemma_day_number_bounds(y: int, m: int, d: int)
    requires
        0 <= y <= 65535,
        1 <= m <= 12,
        1 <= d <= 31,
    ensures
        -400 <= day_number(y, m, d) <= 24000000,
        day_number_in_range(day_number(y, m, d) - 1),
        day_number_in_range(day_number(y, m, d) + 1),
{
}

impl FleEnvironment {
    /// The date and time of the current QSO in UTC: the local time less the
    /// time zone offset.
    pub fn to_utc(&self) -> (r: UtcDateTime)
        ensures
            r == utc_of_seconds(local_seconds(self.current@) - tz_seconds(self.timezone)),
    {
        let c = &self.current;
        let epoch: i64 = 719163;
        proof {
            assert(epoch_day() == 719163);
        }
        let local: i64 = if c.hour < 24 && c.min < 60 {
            let dn: i64 = match crate::calendar::ymd_to_day_number(
                c.year as i32,
                c.month as u32,
                c.day as u32,
            ) {
                Some(n) => {
                    proof {
                        lemma_day_number_bounds(c.year as int, c.month as int, c.day as int);
                    }
                    n as i64
                },
                None => epoch,
            };
            dn * 86400 + c.hour as i64 * 3600 + c.min as i64 * 60
        } else {
            epoch * 86400
        };
        let off: i64 = match self.timezone {
            Some(h) => {
                let s = h.wrapping_mul(3600i32);
                if -86400 < s && s < 86400 {
                    s as i64
                } else {
                    0
                }
            },
            None => 0,
        };
        let secs: i64 = local - off;
        let day: i64 = if secs >= 0 {
            secs / 86400
        } else {
            -((-secs + 86399) / 86400)
        };
        let rem: i64 = secs - day * 86400;
        assert(day == secs / 86400 && rem == secs % 86400) by (nonlinear_arith)
            requires
                day == (if secs >= 0 { secs / 86400 } else { -((-secs + 86399) / 86400) }),
                rem == secs - day * 86400,
        ;
        proof {
            if valid_ymd(c.year as int, c.month as int, c.day as int) {
                lemma_day_number_bounds(c.year as int, c.month as int, c.day as int);
            }
            lemma_day_number_bounds(1970, 1, 1);
        }
        let hour = (rem / 3600) as u32;
        let minute = ((rem % 3600) / 60) as u32;
        let second = (rem % 60) as u32;
        assert(secs % 3600 == rem % 3600 && secs % 60 == rem % 60) by (nonlinear_arith)
            requires
                rem == secs % 86400,
        ;
        match crate::calendar::day_number_to_ymd(day as i32) {
            Some(t) => UtcDateTime { year: t.0, month: t.1, day: t.2, hour, minute, second },
            None => UtcDateTime { year: 1970, month: 1, day: 1, hour, minute, second },
        }
    }
}

impl FleEnvironment {
    /// Clears the current QSO for the next line (see `reset_qso`).
    pub fn reset_current_qso(&mut self)
        ensures
            final(self)@ == (FleEnvView { current: reset_qso(old(self)@.current), ..old(self)@ }),
    {
        self.current.call = String::new();
        self.current.his_wwff = String::new();
        self.current.his_sota = String::new();
        self.current.his_pota = Vec::new();
        self.current.qso_msg = String::new();
        self.current.qso_rmks = String::new();
        self.current.qsl_msg = String::new();
        self.current.his_num = String::new();
        self.current.my_num = String::new();
        self.current.rst_sent = RstValue::Rst { r: 5, s: 9, t: 9 };
        self.current.rst_rcvd = RstValue::Rst { r: 5, s: 9, t: 9 };
        assert(self@.current.his_pota =~= Seq::<Seq<char>>::empty());
    }

    /// Records an error at a line and column.
    pub fn add_error(&mut self, line: usize, column: usize, message: &str)
        ensures
            final(self)@ == (FleEnvView {
                errors: old(self)@.errors.push(FleErrorView { line, column, message: message@ }),
                ..old(self)@
            }),
    {
        let ghost before = self@.errors;
        self.errors.push(FleError::new(line, column, message));
        assert(self@.errors =~= before.push(FleErrorView { line, column, message: message@ }));
    }
}

/// A compiled QSO.
#[derive(Debug, Clone)]
pub struct FleQsoRecord {
    pub mycall: String,
    pub operator: String,
    pub year: u16,
    pub month: u8,
    pub day: u8,
    pub hour: u8,
    pub min: u8,
    pub callsign: String,
    pub band: String,
    pub freq: String,
    pub mode: String,
    pub rigset: u8,
    pub rst_sent: String,
    pub rst_rcvd: String,
    pub his_num: String,
    pub my_num: String,
    pub mysota: String,
    pub hissota: String,
    pub mywwff: String,
    pub hiswwff: String,
    pub mypota: Vec<String>,
    pub hispota: Vec<String>,
    pub qsomsg: String,
    pub qsormks: String,
    pub qslmsg: String,
}

/// The plain value of a `FleQsoRecord`.
pub struct FleQsoView {
    pub mycall: Seq<char>,
    pub operator: Seq<char>,
    pub year: u16,
    pub month: u8,
    pub day: u8,
    pub hour: u8,
    pub min: u8,
    pub callsign: Seq<char>,
    pub band: Seq<char>,
    pub freq: Seq<char>,
    pub mode: Seq<char>,
    pub rigset: u8,
    pub rst_sent: Seq<char>,
    pub rst_rcvd: Seq<char>,
    pub his_num: Seq<char>,
    pub my_num: Seq<char>,
    pub mysota: Seq<char>,
    pub hissota: Seq<char>,
    pub mywwff: Seq<char>,
    pub hiswwff: Seq<char>,
    pub mypota: Seq<Seq<char>>,
    pub hispota: Seq<Seq<char>>,
    pub qsomsg: Seq<char>,
    pub qsormks: Seq<char>,
    pub qslmsg: Seq<char>,
}

impl View for FleQsoRecord {
    type V = FleQsoView;

    open spec fn view(&self) -> FleQsoView {
        FleQsoView {
            mycall: self.mycall@,
            operator: self.operator@,
            year: self.year,
            month: self.month,
            day: self.day,
            hour: self.hour,
            min: self.min,
            callsign: self.callsign@,
            band: self.band@,
            freq: self.freq@,
            mode: self.mode@,
            rigset: self.rigset,
            rst_sent: self.rst_sent@,
            rst_rcvd: self.rst_rcvd@,
            his_num: self.his_num@,
            my_num: self.my_num@,
            mysota: self.mysota@,
            hissota: self.hissota@,
            mywwff: self.mywwff@,
            hiswwff: self.hiswwff@,
            mypota: crate::text::strs(self.mypota@),
            hispota: crate::text::strs(self.hispota@),
            qsomsg: self.qsomsg@,
            qsormks: self.qsormks@,
            qslmsg: self.qslmsg@,
        }
    }
}

/// The plain values of a sequence of records.
pub open spec fn record_views(v: Seq<FleQsoRecord>) -> Seq<FleQsoView> {
    v.map_values(|r: FleQsoRecord| r@)
}

/// The outcome of compiling a FLE text.
#[derive(Debug, Clone)]
pub struct FleCompileResult {
    pub status: String,
    pub log_type: String,
    pub mycall: String,
    pub operator: String,
    pub mysota: String,
    pub mywwff: String,
    pub mypota: Vec<String>,
    pub qslmsg: String,
    pub records: Vec<FleQsoRecord>,
    pub errors: Vec<FleError>,
    pub has_sota: bool,
    pub has_wwff: bool,
    pub has_pota: bool,
    pub has_contest: bool,
}

/// The plain value of a `FleCompileResult`.
pub struct FleCompileView {
    pub status: Seq<char>,
    pub log_type: Seq<char>,
    pub mycall: Seq<char>,
    pub operator: Seq<char>,
    pub mysota: Seq<char>,
    pub mywwff: Seq<char>,
    pub mypota: Seq<Seq<char>>,
    pub qslmsg: Seq<char>,
    pub records: Seq<FleQsoView>,
    pub errors: Seq<FleErrorView>,
    pub has_sota: bool,
    pub has_wwff: bool,
    pub has_pota: bool,
    pub has_contest: bool,
}

impl View for FleCompileResult {
    type V = FleCompileView;

    open spec fn view(&self) -> FleCompileView {
        FleCompileView {
            status: self.status@,
            log_type: self.log_type@,
            mycall: self.mycall@,
            operator: self.operator@,
            mysota: self.mysota@,
            mywwff: self.mywwff@,
            mypota: crate::text::strs(self.mypota@),
            qslmsg: self.qslmsg@,
            records: record_views(self.records@),
            errors: error_views(self.errors@),
            has_sota: self.has_sota,
            has_wwff: self.has_wwff,
            has_pota: self.has_pota,
            has_contest: self.has_contest,
        }
    }
}

/// An empty result: status "OK", log type "NONE".
pub open spec fn empty_compile_view() -> FleCompileView {
    FleCompileView {
        status: "OK"@,
        log_type: "NONE"@,
        mycall: Seq::empty(),
        operator: Seq::empty(),
        mysota: Seq::empty(),
        mywwff: Seq::empty(),
        mypota: Seq::empty(),
        qslmsg: Seq::empty(),
        records: Seq::empty(),
        errors: Seq::empty(),
        has_sota: false,
        has_wwff: false,
        has_pota: false,
        has_contest: false,
    }
}

impl Default for FleCompileResult {
    fn default() -> (r: Self)
        ensures
            r@ == empty_compile_view(),
    {
        let r = FleCompileResult {
            status: String::from_str("OK"),
            log_type: String::from_str("NONE"),
            mycall: String::new(),
            operator: String::new(),
            mysota: String::new(),
            mywwff: String::new(),
            mypota: Vec::new(),
            qslmsg: String::new(),
            records: Vec::new(),
            errors: Vec::new(),
            has_sota: false,
            has_wwff: false,
            has_pota: false,
            has_contest: false,
        };
        assert(r@.mypota =~= Seq::<Seq<char>>::empty());
        assert(r@.records =~= Seq::<FleQsoView>::empty());
        assert(r@.errors =~= Seq::<FleErrorView>::empty());
        r
    }
}

} // verus!
