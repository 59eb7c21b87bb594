//! Compact encoding of optional 64-bit floating point numbers, and the
//! per-category accounting of the bytes and instances written to a stream.

pub mod bytes;
pub mod io;
pub mod util;
