//! The service's records: uploaded CSV rows and award results.
pub mod award;
pub mod locator;
pub mod pota;
pub mod sota;
