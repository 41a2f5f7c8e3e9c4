//! Log conversion between amateur-radio log formats.
//!
//! Reads HAMLOG CSV, HamLog iOS CSV and ADIF; writes SOTA CSV, POTA/WWFF/SOTA
//! ADIF and AirHam CSV.
pub mod adif;
pub mod converter;
pub mod hamlog;
pub mod types;
