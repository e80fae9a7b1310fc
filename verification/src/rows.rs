//! The validated log row and its time-of-day value.

use vstd::prelude::*;

verus! {

/// The status marker of a log row: every valid row is either the start or
/// the end of a process.
#[derive(Clone, Copy, PartialEq, Eq, Structural, Debug)]
pub enum Status {
    Start,
    End,
}

/// Mathematical value of a [`Timestamp`]: the three clock fields as plain
/// integers.
pub ghost struct TimeView {
    pub hour: int,
    pub minute: int,
    pub second: int,
}

impl TimeView {
    /// The timestamp as a count of seconds from the start of its (fixed,
    /// irrelevant) day.  Only differences of these counts ever matter.
    pub open spec fn total_seconds(self) -> int {
        self.hour * 3600 + self.minute * 60 + self.second
    }
}

/// A time of day as it appears in the log: hour, minute and second.
///
/// The log carries no date, and the fields are deliberately not range
/// checked (`99:99:99` is accepted): report semantics only ever use the
/// difference of two timestamps, which is well defined either way.
#[derive(Clone, Copy, PartialEq, Eq, Structural, Debug)]
pub struct Timestamp {
    pub hour: u32,
    pub minute: u32,
    pub second: u32,
}

impl View for Timestamp {
    type V = TimeView;

    open spec fn view(&self) -> TimeView {
        TimeView { hour: self.hour as int, minute: self.minute as int, second: self.second as int }
    }
}

impl Timestamp {
    /// The timestamp as whole seconds since the start of its day.
    pub fn as_seconds(&self) -> (s: i64)
        ensures
            s as int == self@.total_seconds(),
    {
        self.hour as i64 * 3600 + self.minute as i64 * 60 + self.second as i64
    }
}

/// Builds the time-of-day value for one row.  The log supplies no year,
/// month or day, so none is represented.
pub fn get_timestamp(hour: u32, minute: u32, second: u32) -> (t: Timestamp)
    ensures
        t@ == (TimeView { hour: hour as int, minute: minute as int, second: second as int }),
{
    Timestamp { hour, minute, second }
}

/// Mathematical value of a [`CsvRow`].
pub ghost struct RowView {
    pub timestamp: TimeView,
    pub description: Seq<char>,
    pub status: Status,
    pub process_id: Seq<char>,
}

/// One validated log entry.
#[derive(PartialEq, Debug)]
pub struct CsvRow {
    /// The time the log line was written.
    pub timestamp: Timestamp,
    /// Free-text label of the process; present but not validated.
    pub description: String,
    /// Whether the row starts or ends the process.
    pub status: Status,
    /// Opaque token identifying one process instance within the log.
    pub process_id: String,
}

impl View for CsvRow {
    type V = RowView;

    open spec fn view(&self) -> RowView {
        RowView {
            timestamp: self.timestamp@,
            description: self.description@,
            status: self.status,
            process_id: self.process_id@,
        }
    }
}

} // verus!
