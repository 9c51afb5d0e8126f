//! The pass-through sink: it keeps nothing and hands each line's raw text
//! straight back for printing.

use vstd::prelude::*;

use crate::bytes_util::copy_bytes;
use crate::parsers::LogLine;

verus! {

/// A sink with no state: adding a line just yields its raw bytes to emit.
pub struct ZeroAgregator;

impl ZeroAgregator {
    /// Hand back the line's raw bytes for printing.
    pub fn add(&self, log_line: &LogLine) -> (r: Vec<u8>)
        ensures
            r@ == log_line.raw@,
    {
        copy_bytes(log_line.raw.as_slice())
    }

    /// Nothing accumulated, nothing to print.
    pub fn render(&self) -> (r: Vec<u8>)
        ensures
            r@.len() == 0,
    {
        Vec::new()
    }
}

} // verus!
