//! Accounting of what is written to a stream.

pub mod statistics;
