//! The records of the SOTA award judgement: log entries, judgement modes
//! and results.
use vstd::prelude::*;
use crate::calendar::{parsed_datetime, seconds_of};
use crate::logconv::types::split_callsign_of;

verus! {

/// How an activation is judged: `Strict` asks for 10 stations on the
/// activation day or on the next day, `Lenient` for 10 over both days.
#[derive(Debug, Clone, Copy, PartialEq, Eq, Structural)]
pub enum JudgmentMode {
    Strict,
    Lenient,
}

impl Default for JudgmentMode {
    fn default() -> (r: Self)
        ensures
            r == JudgmentMode::Strict,
    {
        JudgmentMode::Strict
    }
}

/// The kind of a SOTA CSV log: an activator's (10 columns), a chaser's
/// (11 columns), or unknown.
#[derive(Debug, Clone, Copy, PartialEq, Eq, Structural)]
pub enum LogType {
    Unknown,
    Activator,
    Chaser,
}

impl Default for LogType {
    fn default() -> (r: Self)
        ensures
            r == LogType::Unknown,
    {
        LogType::Unknown
    }
}

/// One row of a SOTA CSV (V2) log.
#[derive(Debug, Clone)]
pub struct SotaLogEntry {
    pub version: String,
    pub my_callsign: String,
    pub my_summit_code: Option<String>,
    pub date: String,
    pub time: String,
    pub frequency: String,
    pub mode: String,
    pub his_callsign: String,
    pub his_summit_code: Option<String>,
    pub comment: Option<String>,
}

/// A code that is present and not empty.
pub open spec fn has_code(c: Option<String>) -> bool {
    match c {
        Some(s) => s@.len() > 0,
        None => false,
    }
}


/// The award period, in UTC seconds from midnight of day number 0 (see
/// `crate::calendar::seconds_of`): from `start` included to `end` excluded.
#[derive(Debug, Clone, Copy, PartialEq, Eq, Structural)]
pub struct AwardPeriod {
    pub start: i64,
    pub end: i64,
}

impl Default for AwardPeriod {
    /// The period of the SOTA Japan 10th anniversary award: 2025-06-01 to
    /// 2025-12-31 in JST, that is 2025-05-31 15:00 UTC to 2025-12-31 15:00 UTC.
    fn default() -> (r: Self)
        ensures
            r.start == seconds_of(2025, 5, 31, 15, 0, 0),
            r.end == seconds_of(2025, 12, 31, 15, 0, 0),
    {
        AwardPeriod { start: 63884386800, end: 63902876400 }
    }
}

/// The format of a SOTA CSV date and time with a colon in the time.
pub const SOTA_DATETIME_COLON: &'static str = "%d/%m/%Y %H:%M";

/// The format of a SOTA CSV date and time with four time digits.
pub const SOTA_DATETIME_DIGITS: &'static str = "%d/%m/%Y %H%M";

/// The UTC time (see `crate::calendar::seconds_of`) of a date and time
/// parsed by chrono.
pub open spec fn parsed_seconds(t: (i32, u32, u32, u32, u32, u32)) -> int {
    seconds_of(t.0 as int, t.1 as int, t.2 as int, t.3 as int, t.4 as int, t.5 as int)
}

/// The UTC time of a log entry: its date and time joined by a space, read
/// as "dd/mm/yyyy HH:MM" or else as "dd/mm/yyyy HHMM".
pub open spec fn entry_time(date: Seq<char>, time: Seq<char>) -> Option<int> {
    let text = date + " "@ + time;
    match parsed_datetime(text, SOTA_DATETIME_COLON@) {
        Some(t) => Some(parsed_seconds(t)),
        None => match parsed_datetime(text, SOTA_DATETIME_DIGITS@) {
            Some(t) => Some(parsed_seconds(t)),
            None => None,
        },
    }
}

/// The UTC time in seconds of date and time fields that chrono parsed.
pub fn seconds_of_fields(t: (i32, u32, u32, u32, u32, u32)) -> (r: i64)
    requires
        crate::calendar::valid_datetime(t.0 as int, t.1 as int, t.2 as int, t.3 as int, t.4 as int, t.5 as int),
    ensures
        r == parsed_seconds(t),
{
    match crate::calendar::utc_seconds(t.0, t.1, t.2, t.3, t.4, t.5) {
        Some(x) => x,
        None => 0,
    }
}

impl SotaLogEntry {
    /// The UTC time of the entry (see `entry_time`).
    pub fn parse_datetime(&self) -> (r: Option<i64>)
        ensures
            match r {
                Some(x) => entry_time(self.date@, self.time@) == Some(x as int),
                None => entry_time(self.date@, self.time@) is None,
            },
    {
        let mut text = crate::text::copy_str(self.date.as_str());
        text.append(" ");
        text.append(self.time.as_str());
        match crate::calendar::parse_datetime_fields(text.as_str(), SOTA_DATETIME_COLON) {
            Some(t) => Some(seconds_of_fields(t)),
            None => match crate::calendar::parse_datetime_fields(text.as_str(), SOTA_DATETIME_DIGITS) {
                Some(t) => Some(seconds_of_fields(t)),
                None => None,
            },
        }
    }

    /// The operator of the log: the base call of `my_callsign`, upper-cased.
    pub fn operator(&self) -> (r: String)
        ensures
            r@ == split_callsign_of(self.my_callsign@).0,
    {
        crate::logconv::types::split_callsign(self.my_callsign.as_str()).0
    }

    /// The operator of the other station: the base call of `his_callsign`.
    pub fn his_operator(&self) -> (r: String)
        ensures
            r@ == split_callsign_of(self.his_callsign@).0,
    {
        crate::logconv::types::split_callsign(self.his_callsign.as_str()).0
    }

    /// The entry is an activation: it names my summit.
    pub fn is_activation(&self) -> (r: bool)
        ensures
            r == has_code(self.my_summit_code),
    {
        match &self.my_summit_code {
            Some(code) => !code.as_str().is_empty(),
            None => false,
        }
    }

    /// The entry is a chase: it names the other station's summit.
    pub fn is_chase(&self) -> (r: bool)
        ensures
            r == has_code(self.his_summit_code),
    {
        match &self.his_summit_code {
            Some(code) => !code.as_str().is_empty(),
            None => false,
        }
    }
}

/// The result of one summit's activations.
#[derive(Debug, Clone)]
pub struct SummitActivationResult {
    pub summit_code: String,
    pub unique_stations: u32,
    pub qualified: bool,
}

/// The activator award: achieved with 10 qualified summits.
#[derive(Debug)]
pub struct ActivatorResult {
    pub achieved: bool,
    pub qualified_summits: u32,
    pub summits: Vec<SummitActivationResult>,
}

/// The chases of one summit: its distinct activators.
#[derive(Debug, Clone)]
pub struct SummitChaseResult {
    pub summit_code: String,
    pub unique_activators: u32,
    pub activators: Vec<String>,
}

/// The chaser award: achieved with one summit chased with 10 activators.
#[derive(Debug)]
pub struct ChaserResult {
    pub achieved: bool,
    pub qualified_summits: Vec<SummitChaseResult>,
}

/// The award judgement of a log.
#[derive(Debug)]
pub struct AwardResult {
    pub callsign: String,
    pub total_qsos: u32,
    pub log_type: LogType,
    pub activator: Option<ActivatorResult>,
    pub chaser: Option<ChaserResult>,
    pub mode: JudgmentMode,
}

} // verus!
