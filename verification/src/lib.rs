//! A two-byte-grouped hexadecimal dump: an offset column, 16-bit words in
//! host byte order, `*` in place of repeated lines, and a closing byte count.

pub mod hex;
pub mod line;
pub mod dump;
pub mod cmd_line;
