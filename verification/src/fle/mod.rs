//! FLE (fast log entry): a line-oriented shorthand for QSO logs, read by a
//! tokenizer and a compiler whose state machine turns lines into QSO records,
//! and written out as SOTA CSV, ADIF, HAMLOG CSV, AirHam CSV and zLog text.
pub mod compiler;
pub mod output;
pub mod tokenizer;
pub mod types;
