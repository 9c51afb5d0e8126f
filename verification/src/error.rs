//! The engine's error kinds.

use vstd::prelude::*;

verus! {

/// What went wrong while scanning or aggregating a record.
#[derive(Debug, Clone, Copy, PartialEq, Eq, Structural)]
pub enum Error {
    /// A record offered no timestamp tokens to parse.
    MissingTimestamp,
    /// A record's timestamp tokens did not parse.
    InvalidTimestamp,
    /// A record's instant lies before the epoch, so it cannot be bucketed.
    TimestampBeforeEpoch,
    /// A record's instant lies beyond the largest representable bucket.
    TimestampOutOfRange,
}

} // verus!
