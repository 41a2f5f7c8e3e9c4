//! SOTA summit codes.
use vstd::prelude::*;
use crate::domain::model::id::UserId;

verus! {

/// A SOTA summit code, such as "JA/TK-001".
pub struct SummitCode(String);

impl SummitCode {
    pub fn new(code: String) -> (r: Self)
        ensures
            r.inner_view() == code@,
    {
        SummitCode(code)
    }

    /// The text of the code.
    pub closed spec fn inner_view(&self) -> Seq<char> {
        self.0@
    }

    pub fn inner_ref(&self) -> (r: &String)
        ensures
            r@ == self.inner_view(),
    {
        &self.0
    }
}


/// A QSO of a user's SOTA log. Times are UTC seconds (see
/// `crate::calendar::seconds_of`): that of the QSO and that of the upload.
#[derive(Debug)]
pub struct SotaLog {
    pub user_id: UserId,
    pub my_callsign: String,
    pub operator: String,
    pub my_summit_code: Option<String>,
    pub time: i64,
    pub frequency: String,
    pub mode: String,
    pub his_callsign: String,
    pub his_summit_code: Option<String>,
    pub comment: Option<String>,
    pub update: i64,
}

} // verus!
