//! A verified engine for splitting a file's contents into fixed-size
//! sequential parts and for joining such parts back into a byte-identical
//! whole.
//!
//! The engine itself performs no input or output: it works on plain values
//! (byte vectors, file names, directory listings) and leaves reading and
//! writing to a thin caller. Its contracts pin down the part sizes, the
//! part-naming convention, the discovery of a contiguous run of parts, the
//! progress events of an operation, and the byte-size formatting used for
//! display.

pub mod digits;
pub mod discovery;
pub mod engine;
pub mod errors;
pub mod format;
pub mod joiner;
pub mod naming;
pub mod progress;
pub mod splitter;
