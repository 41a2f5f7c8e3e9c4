//! Rows of the POTA park list and of POTA activator and hunter logs.
use vstd::prelude::*;
use crate::calendar::{day_number, parsed_date};
use crate::domain::model::id::LogId;
use crate::domain::model::pota::{PotaActLog, PotaHuntLog};

verus! {

/// One row of the POTA all-parks CSV.
#[derive(Debug)]
pub struct POTAAllCSVFile {
    pub reference: String,
    pub name: String,
    pub active: String,
    pub entity_id: String,
    pub location_desc: String,
    pub latitude: String,
    pub longitude: String,
    pub grid: String,
}

/// One row of a POTA activator log summary.
#[derive(Debug)]
pub struct POTAActivatorLogCSV {
    pub dx_entity: String,
    pub location: String,
    pub hasc: String,
    pub pota_code: String,
    pub park_name: String,
    pub first_qso_date: String,
    pub attempts: i32,
    pub activations: i32,
    pub qsos: i32,
}

/// One row of a POTA hunter log summary.
#[derive(Debug)]
pub struct POTAHunterLogCSV {
    pub dx_entity: String,
    pub location: String,
    pub hasc: String,
    pub pota_code: String,
    pub park_name: String,
    pub first_qso_date: String,
    pub qsos: i32,
}

/// An uploaded POTA reference list.
pub struct UploadPOTAReference {
    pub data: String,
}

/// An uploaded WWFF reference list.
pub struct UploadWWFFReference {
    pub data: String,
}

/// An uploaded POTA log with the ids of its activator and hunter parts.
#[derive(Debug)]
pub struct UploadPOTALog {
    pub activator_logid: String,
    pub hunter_logid: String,
    pub data: String,
}

impl POTAAllCSVFile {
    /// A park is inactive unless its `active` column holds a "1".
    pub fn is_inactive(&self) -> (r: bool)
        ensures
            r == !crate::text::contains_seq(self.active@, "1"@),
    {
        let a = crate::text::chars_of(self.active.as_str());
        let one = crate::text::chars_of("1");
        !crate::text::contains(a.as_slice(), one.as_slice())
    }
}


/// The format "YYYY-MM-DD".
pub const POTA_DATE_DASHES: &'static str = "%Y-%m-%d";

/// The format "YYYY/MM/DD".
pub const POTA_DATE_SLASHES: &'static str = "%Y/%m/%d";

/// The day number of a first-QSO date written "YYYY-MM-DD" or "YYYY/MM/DD".
pub open spec fn pota_date(s: Seq<char>) -> Option<int> {
    match parsed_date(s, POTA_DATE_DASHES@) {
        Some(t) => Some(day_number(t.0 as int, t.1 as int, t.2 as int)),
        None => match parsed_date(s, POTA_DATE_SLASHES@) {
            Some(t) => Some(day_number(t.0 as int, t.1 as int, t.2 as int)),
            None => None,
        },
    }
}

fn pota_date_exec(s: &str) -> (r: Option<i32>)
    ensures
        match r {
            Some(d) => pota_date(s@) == Some(d as int),
            None => pota_date(s@) is None,
        },
{
    let t = match crate::calendar::parse_date_fields(s, POTA_DATE_DASHES) {
        Some(t) => Some(t),
        None => crate::calendar::parse_date_fields(s, POTA_DATE_SLASHES),
    };
    match t {
        Some(t) => crate::calendar::ymd_to_day_number(t.0, t.1, t.2),
        None => None,
    }
}

/// The log entry of an activator log row: its fields, with the first-QSO
/// date as a day number.
pub open spec fn act_log_of(log_id: LogId, v: POTAActivatorLogCSV, r: PotaActLog) -> bool {
    &&& r.log_id == log_id
    &&& r.dx_entity == v.dx_entity && r.location == v.location && r.hasc == v.hasc
    &&& r.pota_code == v.pota_code && r.park_name == v.park_name
    &&& pota_date(v.first_qso_date@) == Some(r.first_qso_date as int)
    &&& r.attempts == v.attempts && r.activations == v.activations && r.qsos == v.qsos
}

/// The log entry of a hunter log row: its fields, with the first-QSO date as
/// a day number.
pub open spec fn hunt_log_of(log_id: LogId, v: POTAHunterLogCSV, r: PotaHuntLog) -> bool {
    &&& r.log_id == log_id
    &&& r.dx_entity == v.dx_entity && r.location == v.location && r.hasc == v.hasc
    &&& r.pota_code == v.pota_code && r.park_name == v.park_name
    &&& pota_date(v.first_qso_date@) == Some(r.first_qso_date as int)
    &&& r.qsos == v.qsos
}

impl POTAActivatorLogCSV {
    /// The log entry of a row whose first-QSO date reads (see `pota_date`).
    pub fn to_log(log_id: LogId, value: POTAActivatorLogCSV) -> (r: PotaActLog)
        requires
            pota_date(value.first_qso_date@) is Some,
        ensures
            act_log_of(log_id, value, r),
    {
        let date = match pota_date_exec(value.first_qso_date.as_str()) {
            Some(d) => d,
            None => 0,
        };
        PotaActLog {
            log_id,
            dx_entity: value.dx_entity,
            location: value.location,
            hasc: value.hasc,
            pota_code: value.pota_code,
            park_name: value.park_name,
            first_qso_date: date,
            attempts: value.attempts,
            activations: value.activations,
            qsos: value.qsos,
        }
    }

    /// The log entry of a row (see `to_log`), or `None` when its first-QSO
    /// date does not read.
    pub fn try_to_log(log_id: LogId, value: POTAActivatorLogCSV) -> (r: Option<PotaActLog>)
        ensures
            r is Some == (pota_date(value.first_qso_date@) is Some),
            r matches Some(x) ==> act_log_of(log_id, value, x),
    {
        match pota_date_exec(value.first_qso_date.as_str()) {
            Some(_) => Some(Self::to_log(log_id, value)),
            None => None,
        }
    }
}

impl POTAHunterLogCSV {
    /// The log entry of a row whose first-QSO date reads (see `pota_date`).
    pub fn to_log(log_id: LogId, value: POTAHunterLogCSV) -> (r: PotaHuntLog)
        requires
            pota_date(value.first_qso_date@) is Some,
        ensures
            hunt_log_of(log_id, value, r),
    {
        let date = match pota_date_exec(value.first_qso_date.as_str()) {
            Some(d) => d,
            None => 0,
        };
        PotaHuntLog {
            log_id,
            dx_entity: value.dx_entity,
            location: value.location,
            hasc: value.hasc,
            pota_code: value.pota_code,
            park_name: value.park_name,
            first_qso_date: date,
            qsos: value.qsos,
        }
    }

    /// The log entry of a row (see `to_log`), or `None` when its first-QSO
    /// date does not read.
    pub fn try_to_log(log_id: LogId, value: POTAHunterLogCSV) -> (r: Option<PotaHuntLog>)
        ensures
            r is Some == (pota_date(value.first_qso_date@) is Some),
            r matches Some(x) ==> hunt_log_of(log_id, value, x),
    {
        match pota_date_exec(value.first_qso_date.as_str()) {
            Some(_) => Some(Self::to_log(log_id, value)),
            None => None,
        }
    }
}

} // verus!
