//! Rows of the municipality code table.
use vstd::prelude::*;
use crate::domain::model::locator::{CenturyCode, MunicipalityCenturyCode};
use crate::fle::types::opt_view;

verus! {

/// One row of the municipality CSV.
#[derive(Debug)]
pub struct MuniCSVFile {
    pub muni_code: i32,
    pub prefecture: String,
    pub municipality: String,
    pub jcc_code: Option<String>,
    pub ward_code: Option<String>,
    pub jcc_text: Option<String>,
    pub jcg_code: Option<String>,
    pub jcg_text: Option<String>,
    pub hamlog_code: Option<String>,
}

/// An uploaded municipality CSV.
pub struct UploadMuniCSV {
    pub data: String,
}

/// The text of an optional string, empty when absent.
pub open spec fn text_or_empty(o: Option<String>) -> Seq<char> {
    match o {
        Some(s) => s@,
        None => Seq::empty(),
    }
}

fn take_or_empty(o: Option<String>) -> (r: String)
    ensures
        r@ == text_or_empty(o),
{
    match o {
        Some(s) => s,
        None => String::new(),
    }
}

impl MuniCSVFile {
    /// The municipality of a row: a row with a JCC code is a city (JCC),
    /// any other a district (JCG); missing texts are empty.
    pub fn into_municipality(self) -> (r: MunicipalityCenturyCode)
        ensures
            r.muni_code == self.muni_code,
            r.prefecture@ == self.prefecture@,
            r.municipality@ == self.municipality@,
            match self.jcc_code {
                Some(j) => r.code matches CenturyCode::JCC { jcc_code, ward_code, jcc_text }
                    && jcc_code@ == j@ && opt_view(ward_code) == opt_view(self.ward_code)
                    && jcc_text@ == text_or_empty(self.jcc_text),
                None => r.code matches CenturyCode::JCG { jcg_code, jcg_text, hamlog_code }
                    && jcg_code@ == text_or_empty(self.jcg_code) && jcg_text@ == text_or_empty(
                    self.jcg_text,
                ) && opt_view(hamlog_code) == opt_view(self.hamlog_code),
            },
    {
        let MuniCSVFile {
            muni_code,
            prefecture,
            municipality,
            jcc_code,
            ward_code,
            jcc_text,
            jcg_code,
            jcg_text,
            hamlog_code,
        } = self;
        let code = match jcc_code {
            Some(jcc_code) => CenturyCode::JCC {
                jcc_code,
                ward_code,
                jcc_text: take_or_empty(jcc_text),
            },
            None => CenturyCode::JCG {
                jcg_code: take_or_empty(jcg_code),
                jcg_text: take_or_empty(jcg_text),
                hamlog_code,
            },
        };
        MunicipalityCenturyCode { muni_code, prefecture, municipality, code }
    }
}

} // verus!
