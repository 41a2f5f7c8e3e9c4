//! Amateur-radio log processing: the FLE (fast log entry) compiler, log format
//! conversion (HAMLOG, ADIF, SOTA CSV, AirHam) and award judgement.
pub mod aprs_service;
pub mod award_calculator;
pub mod award_pdf;
pub mod calendar;
pub mod domain;
pub mod fle;
pub mod logconv;
pub mod model;
pub mod num;
pub mod pattern;
pub mod pota_log_service;
pub mod reference_sync;
pub mod text;
pub mod user_service;
pub mod wspr;
