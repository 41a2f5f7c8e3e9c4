//! Alerts and spots of activations.
use vstd::prelude::*;
use crate::domain::model::AwardProgram;

verus! {

/// An announced activation. Times are UTC seconds (see
/// `crate::calendar::seconds_of`).
#[derive(Debug)]
pub struct Alert {
    pub program: AwardProgram,
    pub alert_id: i32,
    pub user_id: i32,
    pub reference: String,
    pub reference_detail: String,
    pub location: String,
    pub activator: String,
    pub activator_name: Option<String>,
    pub operator: String,
    pub start_time: i64,
    pub end_time: Option<i64>,
    pub frequencies: String,
    pub comment: Option<String>,
    pub poster: Option<String>,
}

/// A spotted activation. The time is in UTC seconds (see
/// `crate::calendar::seconds_of`).
#[derive(Debug, Clone)]
pub struct Spot {
    pub program: AwardProgram,
    pub spot_id: i32,
    pub reference: String,
    pub reference_detail: String,
    pub activator: String,
    pub activator_name: Option<String>,
    pub operator: String,
    pub spot_time: i64,
    pub frequency: String,
    pub mode: String,
    pub spotter: String,
    pub comment: Option<String>,
}

/// A spot with the number of QSOs logged at its park.
#[derive(Debug, Clone)]
pub struct SpotLog {
    pub spot: Spot,
    pub qsos: Option<i32>,
}

impl SpotLog {
    /// A spot with the QSO count of its park's log, where there is one.
    pub fn new(s: Spot, park_qsos: Option<i32>) -> (r: SpotLog)
        ensures
            r.spot == s,
            r.qsos == park_qsos,
    {
        SpotLog { spot: s, qsos: park_qsos }
    }
}

} // verus!
