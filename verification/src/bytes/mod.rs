//! Byte-level codecs.

pub mod double;
pub mod float;
pub mod varnum;
