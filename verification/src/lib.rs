//! Process-activity log analysis.
//!
//! A log is a piece of CSV text whose rows carry a time of day, a free-text
//! description, a `START` or `END` marker, and a process id.  [`parse_csv`]
//! turns the text into validated [`CsvRow`] values; [`generate_report`]
//! pairs the `START` and `END` rows per process id and flags every
//! completed process whose duration passed a warning or error threshold.
//! Both are fail-fast: the first bad row ends the run with an error naming
//! that row's 1-indexed position.

pub mod errors;
pub mod numbers;
pub mod parser;
pub mod report;
pub mod rows;
pub mod text;

pub use errors::GenerationError;
pub use errors::ParseError;
pub use parser::parse_csv;
pub use parser::try_parse_csv;
pub use report::generate_report;
pub use report::Report;
pub use report::ReportRow;
pub use report::Severity;
pub use rows::get_timestamp;
pub use rows::CsvRow;
pub use rows::Status;
pub use rows::Timestamp;
