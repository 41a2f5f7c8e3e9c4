//! The domain model: award programs, references, logs and the requests
//! that the repositories take.
pub mod model;
