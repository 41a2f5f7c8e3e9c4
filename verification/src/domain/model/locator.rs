//! Japanese municipality codes for the century awards (JCC cities, JCG
//! districts).
use vstd::prelude::*;

verus! {

/// A JCC (city) or JCG (district) code with its name.
#[derive(Debug)]
pub enum CenturyCode {
    JCC { jcc_code: String, ward_code: Option<String>, jcc_text: String },
    JCG { jcg_code: String, jcg_text: String, hamlog_code: Option<String> },
}

/// A municipality with its century-award code.
#[derive(Debug)]
pub struct MunicipalityCenturyCode {
    pub muni_code: i32,
    pub prefecture: String,
    pub municipality: String,
    pub code: CenturyCode,
}

} // verus!
