//! POTA park codes, log kinds and log statistics.
use vstd::prelude::*;
use crate::domain::model::id::{LogId, UserId};

verus! {

/// A POTA park code, such as "JA-0001".
#[derive(Debug)]
pub struct ParkCode(String);

impl ParkCode {
    pub fn new(code: String) -> (r: Self)
        ensures
            r.inner_view() == code@,
    {
        ParkCode(code)
    }

    /// The text of the code.
    pub closed spec fn inner_view(&self) -> Seq<char> {
        self.0@
    }

    pub fn inner_ref(&self) -> (r: &String)
        ensures
            r@ == self.inner_view(),
    {
        &self.0
    }
}

/// Whether a POTA log is an activator's or a hunter's.
#[derive(Debug, Clone, Copy, PartialEq, Eq, Structural)]
pub enum POTALogKind {
    ActivatorLog,
    HunterLog,
}

/// The stored name of a log kind: "activator" or "hunter".
pub open spec fn log_kind_name(k: POTALogKind) -> Seq<char> {
    match k {
        POTALogKind::ActivatorLog => "activator"@,
        POTALogKind::HunterLog => "hunter"@,
    }
}

impl POTALogKind {
    /// The stored name of the kind (see `log_kind_name`).
    pub fn name(&self) -> (r: String)
        ensures
            r@ == log_kind_name(*self),
    {
        match self {
            POTALogKind::ActivatorLog => String::from_str("activator"),
            POTALogKind::HunterLog => String::from_str("hunter"),
        }
    }

    /// The kind that a stored name stands for.
    pub fn from_name(name: &str) -> (r: Self)
        requires
            name@ == "activator"@ || name@ == "hunter"@,
        ensures
            log_kind_name(r) == name@,
    {
        if crate::text::str_eq(name, "activator") {
            POTALogKind::ActivatorLog
        } else {
            POTALogKind::HunterLog
        }
    }
}

/// The stored entry of an uploaded POTA log: whose it is, its log id, its
/// kind once known, and when it was last written (UTC seconds, see
/// `crate::calendar::seconds_of`).
#[derive(Debug, Clone, Copy)]
pub struct PotaLogHist {
    pub user_id: Option<UserId>,
    pub log_id: LogId,
    pub log_kind: Option<POTALogKind>,
    pub update: i64,
}

impl PotaLogHist {
    /// A fresh entry, written now, with a new random log id and no kind yet.
    pub fn new(user_id: Option<UserId>) -> (r: Self)
        ensures
            r.user_id == user_id,
            r.log_kind is None,
    {
        PotaLogHist { user_id, log_id: LogId::new(), log_kind: None, update: crate::calendar::utc_now() }
    }
}

/// The number of users and logs at one time.
#[derive(Debug)]
pub struct PotaLogStatEnt {
    pub time: String,
    pub users: i64,
    pub logs: i64,
}


/// A park of a user's POTA activator log. The date of the first QSO is a day
/// number (see `crate::calendar::day_number`).
#[derive(Debug)]
pub struct PotaActLog {
    pub log_id: LogId,
    pub dx_entity: String,
    pub location: String,
    pub hasc: String,
    pub pota_code: String,
    pub park_name: String,
    pub first_qso_date: i32,
    pub attempts: i32,
    pub activations: i32,
    pub qsos: i32,
}

/// A park of a user's POTA hunter log. The date of the first QSO is a day
/// number (see `crate::calendar::day_number`).
#[derive(Debug)]
pub struct PotaHuntLog {
    pub log_id: LogId,
    pub dx_entity: String,
    pub location: String,
    pub hasc: String,
    pub pota_code: String,
    pub park_name: String,
    pub first_qso_date: i32,
    pub qsos: i32,
}

} // verus!
