//! A persistent key-value store kept as an append-only log of text records.
//!
//! Every write appends one line `<key>,<value-text>`; a read folds the log from
//! the oldest record to the newest, so that the last record of a key decides
//! its state. This crate holds the verified core: the key validator, the record
//! codec and the folds behind `get`, `contains` and `load_map`.

pub mod error;
pub mod key;
pub mod laws;
pub mod log;
pub mod record;

pub use error::{line_error, read_err, write_err, Error};
pub use key::validate_key;
pub use record::{set_record, split_key_value, unset_record};
