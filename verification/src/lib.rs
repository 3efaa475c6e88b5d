//! Verified core of a line-oriented file splitter.
//!
//! The library partitions the lines of an input into chunks of a fixed
//! maximum size, optionally discarding the first line, and derives each
//! chunk's file name deterministically from the input's name. All file
//! I/O is left to the caller; everything here works on plain values.

pub mod name;
pub mod source;
pub mod split;
pub mod splitter;
