//! Rows of SOTA logs and uploads of summit lists and logs.
use vstd::prelude::*;
use crate::calendar::seconds_of;
use crate::domain::model::id::UserId;
use crate::domain::model::sota::SotaLog;
use crate::logconv::types::split_callsign_of;
use crate::model::award::entry_time;

verus! {

/// One row of a SOTA CSV (V2) log.
#[derive(Debug)]
pub struct SOTALogCSV {
    pub version: String,
    pub my_callsign: String,
    pub my_summit_code: Option<String>,
    pub date: String,
    pub time: String,
    pub frequency: String,
    pub mode: String,
    pub his_callsign: String,
    pub his_summit_code: Option<String>,
    pub comment: Option<String>,
}

/// An uploaded SOTA summit list.
pub struct UploadSOTASummit {
    pub data: String,
}

/// An uploaded list of extra summit data.
pub struct UploadSOTASummitOpt {
    pub data: String,
}

/// An uploaded SOTA log.
pub struct UploadSOTALog {
    pub data: String,
}


/// The time of a SOTA log row: its date and time as the award reads them
/// (see `crate::model::award::entry_time`), else 1900-01-01 00:00.
pub open spec fn log_row_time(date: Seq<char>, time: Seq<char>) -> int {
    match entry_time(date, time) {
        Some(t) => t,
        None => seconds_of(1900, 1, 1, 0, 0, 0),
    }
}

/// The log entry of a row uploaded by a user at time `update`: the row's
/// fields, the operator of its callsign and its time (see `log_row_time`).
pub open spec fn sota_log_of(user_id: UserId, v: SOTALogCSV, update: i64, r: SotaLog) -> bool {
    &&& r.user_id == user_id
    &&& r.my_callsign@ == v.my_callsign@
    &&& r.operator@ == split_callsign_of(v.my_callsign@).0
    &&& r.my_summit_code == v.my_summit_code
    &&& r.time == log_row_time(v.date@, v.time@)
    &&& r.frequency == v.frequency
    &&& r.mode == v.mode
    &&& r.his_callsign == v.his_callsign
    &&& r.his_summit_code == v.his_summit_code
    &&& r.comment == v.comment
    &&& r.update == update
}

impl SOTALogCSV {
    /// The log entry of a row uploaded at time `update` (see `sota_log_of`).
    pub fn to_log_at(user_id: UserId, value: SOTALogCSV, update: i64) -> (r: SotaLog)
        ensures
            sota_log_of(user_id, value, update, r),
    {
        let entry = crate::model::award::SotaLogEntry {
            version: String::new(),
            my_callsign: crate::text::copy_str(value.my_callsign.as_str()),
            my_summit_code: None,
            date: crate::text::copy_str(value.date.as_str()),
            time: crate::text::copy_str(value.time.as_str()),
            frequency: String::new(),
            mode: String::new(),
            his_callsign: String::new(),
            his_summit_code: None,
            comment: None,
        };
        let time = match entry.parse_datetime() {
            Some(t) => t,
            None => {
                assert(crate::calendar::day_number(1900, 1, 1) == 693596);
                assert(seconds_of(1900, 1, 1, 0, 0, 0) == 59926694400);
                59926694400
            },
        };
        let operator = entry.operator();
        SotaLog {
            user_id,
            my_callsign: value.my_callsign,
            operator,
            my_summit_code: value.my_summit_code,
            time,
            frequency: value.frequency,
            mode: value.mode,
            his_callsign: value.his_callsign,
            his_summit_code: value.his_summit_code,
            comment: value.comment,
            update,
        }
    }

    /// The log entry of a row uploaded now (see `sota_log_of`; the upload
    /// time is the machine's).
    pub fn to_log(user_id: UserId, value: SOTALogCSV) -> (r: SotaLog)
        ensures
            sota_log_of(user_id, value, r.update, r),
    {
        let now = crate::calendar::utc_now();
        Self::to_log_at(user_id, value, now)
    }
}

} // verus!
