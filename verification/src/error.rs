//! The ways in which a line or a file is rejected.

use vstd::prelude::*;

verus! {

/// Why a line gave no record.
#[derive(Clone, Copy, Debug, PartialEq, Eq, Structural)]
pub enum OrderError {
    /// The title row or the number of fields does not fit the schema. A file
    /// in which this happens is of another format: nothing more is read from
    /// it.
    FormatMismatch,
    /// The numeric text in the column of this index is not a number. The
    /// line is skipped.
    ParseError { column: usize },
    /// The running total of the line's security would leave the range of
    /// `i64`. The line is skipped.
    Overflow,
}

impl OrderError {
    /// Whether the error ends the reading of the file.
    pub open spec fn is_fatal(self) -> bool {
        self == OrderError::FormatMismatch
    }

    /// Whether the error ends the reading of the file.
    pub fn fatal(&self) -> (r: bool)
        ensures
            r == self.is_fatal(),
    {
        match self {
            OrderError::FormatMismatch => true,
            _ => false,
        }
    }
}

} // verus!
