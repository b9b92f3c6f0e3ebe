//! The closed error taxonomy: every failure aborts the run and names the
//! originating line where one applies.

use vstd::prelude::*;

verus! {

/// What exactly was wrong with a malformed row.
#[derive(Clone, Copy, Debug, PartialEq, Eq, Structural)]
pub enum RowIssue {
    /// The row does not have exactly three fields.
    FieldCount,
    /// The power field is neither blank nor a non-negative integer in range.
    BadPower,
    /// The time field is not of the form `HH:MM:SS`.
    BadTime,
}

/// The errors the pipeline can surface; none is ever retried.
#[derive(Clone, Copy, Debug, PartialEq, Eq, Structural)]
pub enum Error {
    /// The configured time mode is neither `time` nor `duration`.
    Config,
    /// The input source could not be read (raised by the caller that does the
    /// reading; the pipeline itself never performs input).
    Io,
    /// A structurally malformed row, with its 1-based line number.
    RowParse { line: u64, kind: RowIssue },
    /// In absolute-time mode, a row's time went backwards.
    Ordering { line: u64, got: u64, expected: u64 },
}

} // verus!
