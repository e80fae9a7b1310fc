//! The closed error taxonomy, with message rendering.
//!
//! Every failure is fatal to its run: the parser and the report generator
//! stop at the first bad row.  Each error carries the 1-indexed line or
//! row position it was found at, and can render the exact message the
//! caller is expected to print.

use crate::numbers::dec_str;
use crate::numbers::usize_to_string;
use vstd::prelude::*;

verus! {

/// Mathematical value of a [`ParseError`]: the variant with its 1-indexed
/// line number as a plain integer.
pub ghost enum ParseFault {
    UnexpectedColumnCount { line: int },
    InvalidTimestamp { line: int },
    InvalidStatus { line: int },
}

/// A reason `parse_csv` rejects its input, with the 1-indexed line number
/// of the offending row.
#[derive(Clone, Copy, PartialEq, Eq, Structural, Debug)]
pub enum ParseError {
    /// The line had more than 4 comma-separated fields.
    UnexpectedColumnCount { line: usize },
    /// A segment of the timestamp field did not parse as a `u32`.
    InvalidTimestamp { line: usize },
    /// The status field was neither `START` nor `END`.
    InvalidStatus { line: usize },
}

impl View for ParseError {
    type V = ParseFault;

    open spec fn view(&self) -> ParseFault {
        match *self {
            ParseError::UnexpectedColumnCount { line } => ParseFault::UnexpectedColumnCount {
                line: line as int,
            },
            ParseError::InvalidTimestamp { line } => ParseFault::InvalidTimestamp {
                line: line as int,
            },
            ParseError::InvalidStatus { line } => ParseFault::InvalidStatus { line: line as int },
        }
    }
}

impl ParseError {
    /// The message the boundary layer prints for this error.
    pub open spec fn spec_message(self) -> Seq<char> {
        match self {
            ParseError::UnexpectedColumnCount { line } => "unexpected column, line "@ + dec_str(
                line as nat,
            ),
            ParseError::InvalidTimestamp { line } => "invalid timestamp, line "@ + dec_str(
                line as nat,
            ),
            ParseError::InvalidStatus { line } => "invalid status, line "@ + dec_str(line as nat),
        }
    }

    /// Renders the message the boundary layer prints for this error.
    pub fn message(&self) -> (m: String)
        ensures
            m@ == self.spec_message(),
    {
        match *self {
            ParseError::UnexpectedColumnCount { line } => {
                let mut m = String::from_str("unexpected column, line ");
                let num = usize_to_string(line);
                m.append(num.as_str());
                m
            },
            ParseError::InvalidTimestamp { line } => {
                let mut m = String::from_str("invalid timestamp, line ");
                let num = usize_to_string(line);
                m.append(num.as_str());
                m
            },
            ParseError::InvalidStatus { line } => {
                let mut m = String::from_str("invalid status, line ");
                let num = usize_to_string(line);
                m.append(num.as_str());
                m
            },
        }
    }
}

/// Mathematical value of a [`GenerationError`].
pub ghost enum GenFault {
    MissingStartLog { position: int },
}

/// A reason `generate_report` rejects its row sequence, with the 1-indexed
/// position of the offending row.
#[derive(Clone, Copy, PartialEq, Eq, Structural, Debug)]
pub enum GenerationError {
    /// An `END` row had no prior `START` for its process id.
    MissingStartLog { position: usize },
}

impl View for GenerationError {
    type V = GenFault;

    open spec fn view(&self) -> GenFault {
        match *self {
            GenerationError::MissingStartLog { position } => GenFault::MissingStartLog {
                position: position as int,
            },
        }
    }
}

impl GenerationError {
    /// The message the boundary layer prints for this error.
    pub open spec fn spec_message(self) -> Seq<char> {
        match self {
            GenerationError::MissingStartLog { position } => "process has no start log, line "@
                + dec_str(position as nat),
        }
    }

    /// Renders the message the boundary layer prints for this error.
    pub fn message(&self) -> (m: String)
        ensures
            m@ == self.spec_message(),
    {
        match *self {
            GenerationError::MissingStartLog { position } => {
                let mut m = String::from_str("process has no start log, line ");
                let num = usize_to_string(position);
                m.append(num.as_str());
                m
            },
        }
    }
}

} // verus!
