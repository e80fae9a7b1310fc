//! The report generator: validated rows to aggregate report.
//!
//! Rows are scanned once, in input order.  A `START` row records (or
//! silently overwrites — last write wins) the start time for its process
//! id; an `END` row must find one, and the elapsed whole seconds decide
//! whether a finding is flagged: over 600 an error, over 300 a warning.
//! An `END` with no prior `START` ends the run with an error naming the
//! row's 1-indexed position.  [`spec_generate`] is the mathematical
//! generator the executable one is proved against; findings appear in row
//! scan order, never in any incidental key order.

use crate::errors::GenFault;
use crate::errors::GenerationError;
use crate::rows::CsvRow;
use crate::rows::RowView;
use crate::rows::Status;
use crate::rows::TimeView;
use crate::rows::Timestamp;
use crate::text::str_eq;
use vstd::prelude::*;

verus! {

/// How far past the thresholds a completed process ran.
#[derive(Clone, Copy, PartialEq, Eq, Structural, Debug)]
pub enum Severity {
    Warning,
    Error,
}

impl Severity {
    /// The label under which the report prints this severity.
    pub open spec fn spec_label(self) -> Seq<char> {
        match self {
            Severity::Warning => "WARNING"@,
            Severity::Error => "ERROR"@,
        }
    }

    /// Renders the severity's report label.
    pub fn label(&self) -> (s: String)
        ensures
            s@ == self.spec_label(),
    {
        match self {
            Severity::Warning => String::from_str("WARNING"),
            Severity::Error => String::from_str("ERROR"),
        }
    }
}

/// The classification of a completed process's duration in whole seconds:
/// over 600 an error, over 300 a warning, otherwise nothing to flag.
pub open spec fn spec_classify(duration: int) -> Option<Severity> {
    if duration > 600 {
        Some(Severity::Error)
    } else if duration > 300 {
        Some(Severity::Warning)
    } else {
        None
    }
}

/// Classifies a duration against the warning and error thresholds.
pub fn classify_duration(duration: i64) -> (s: Option<Severity>)
    ensures
        s == spec_classify(duration as int),
{
    if duration > 600 {
        Some(Severity::Error)
    } else if duration > 300 {
        Some(Severity::Warning)
    } else {
        None
    }
}

/// Mathematical value of a [`ReportRow`].
pub ghost struct FindingView {
    pub process_id: Seq<char>,
    pub severity: Severity,
    pub duration_seconds: int,
}

/// One flagged finding: a completed process whose duration passed a
/// threshold.
#[derive(PartialEq, Debug)]
pub struct ReportRow {
    /// The process id of the flagged pair.
    pub process_id: String,
    /// How severely the duration was flagged.
    pub severity: Severity,
    /// The elapsed whole seconds between the pair's `START` and `END`.
    pub duration_seconds: i64,
}

impl View for ReportRow {
    type V = FindingView;

    open spec fn view(&self) -> FindingView {
        FindingView {
            process_id: self.process_id@,
            severity: self.severity,
            duration_seconds: self.duration_seconds as int,
        }
    }
}

/// Mathematical value of a [`Report`].
pub ghost struct ReportView {
    pub processes_started: int,
    pub processes_completed: int,
    pub rows: Seq<FindingView>,
}

/// The aggregate result of processing a row sequence.
#[derive(PartialEq, Debug)]
pub struct Report {
    /// How many rows had status `START`.
    pub processes_started: u32,
    /// How many `END` rows matched a prior `START`.
    pub processes_completed: u32,
    /// The flagged findings, in the order the completed processes appear
    /// in the input.
    pub rows: Vec<ReportRow>,
}

impl View for Report {
    type V = ReportView;

    open spec fn view(&self) -> ReportView {
        ReportView {
            processes_started: self.processes_started as int,
            processes_completed: self.processes_completed as int,
            rows: self.rows@.map_values(|r: ReportRow| r@),
        }
    }
}

/// Processes the rows from index `i` on, given the start times recorded so
/// far and the report accumulated so far.
pub open spec fn spec_generate_from(
    rows: Seq<RowView>,
    i: int,
    store: Map<Seq<char>, TimeView>,
    acc: ReportView,
) -> Result<ReportView, GenFault>
    decreases rows.len() - i,
{
    if i < 0 || i >= rows.len() {
        Ok(acc)
    } else {
        let row = rows[i];
        if row.status == Status::End {
            if store.contains_key(row.process_id) {
                let duration = row.timestamp.total_seconds()
                    - store[row.process_id].total_seconds();
                let flagged = match spec_classify(duration) {
                    Some(severity) => acc.rows.push(
                        FindingView {
                            process_id: row.process_id,
                            severity,
                            duration_seconds: duration,
                        },
                    ),
                    None => acc.rows,
                };
                spec_generate_from(
                    rows,
                    i + 1,
                    store,
                    ReportView {
                        processes_started: acc.processes_started,
                        processes_completed: acc.processes_completed + 1,
                        rows: flagged,
                    },
                )
            } else {
                Err(GenFault::MissingStartLog { position: i + 1 })
            }
        } else {
            spec_generate_from(
                rows,
                i + 1,
                store.insert(row.process_id, row.timestamp),
                ReportView {
                    processes_started: acc.processes_started + 1,
                    processes_completed: acc.processes_completed,
                    rows: acc.rows,
                },
            )
        }
    }
}

/// The mathematical report generator: the meaning of `generate_report` on
/// any row sequence.
pub open spec fn spec_generate(rows: Seq<RowView>) -> Result<ReportView, GenFault> {
    spec_generate_from(
        rows,
        0,
        Map::empty(),
        ReportView { processes_started: 0, processes_completed: 0, rows: Seq::empty() },
    )
}

/// The start times recorded by a sequence of `(process id, time)` entries,
/// later entries winning.
pub open spec fn store_map(entries: Seq<(String, Timestamp)>) -> Map<Seq<char>, TimeView>
    decreases entries.len(),
{
    if entries.len() == 0 {
        Map::empty()
    } else {
        store_map(entries.drop_last()).insert(entries.last().0@, entries.last().1@)
    }
}

/// Finds the most recently recorded start time for `pid`.
fn store_lookup(entries: &Vec<(String, Timestamp)>, pid: &String) -> (r: Option<Timestamp>)
    ensures
        match r {
            Some(t) => store_map(entries@).contains_key(pid@) && store_map(entries@)[pid@] == t@,
            None => !store_map(entries@).contains_key(pid@),
        },
{
    let mut j = entries.len();
    proof {
        assert(entries@.take(entries@.len() as int) =~= entries@);
    }
    while j > 0
        invariant
            j <= entries@.len(),
            store_map(entries@).contains_key(pid@) == store_map(
                entries@.take(j as int),
            ).contains_key(pid@),
            store_map(entries@).contains_key(pid@) ==> store_map(entries@)[pid@] == store_map(
                entries@.take(j as int),
            )[pid@],
        decreases j,
    {
        j -= 1;
        let e = &entries[j];
        proof {
            assert(entries@.take(j + 1).drop_last() =~= entries@.take(j as int));
            assert(entries@.take(j + 1).last() == entries@[j as int]);
        }
        if str_eq(e.0.as_str(), pid.as_str()) {
            return Some(e.1);
        }
    }
    proof {
        assert(entries@.take(0) =~= Seq::<(String, Timestamp)>::empty());
    }
    None
}

/// Consumes the row sequence in order, pairs `END` rows with the latest
/// `START` for the same process id, and accumulates the report: the
/// counts, and a finding for every completed process whose duration passed
/// a threshold, in row order.
pub fn generate_report(data: &Vec<CsvRow>) -> (r: Result<Report, GenerationError>)
    requires
        data@.len() <= u32::MAX,
    ensures
        match r {
            Ok(rep) => spec_generate(data@.map_values(|x: CsvRow| x@)) == Ok::<
                ReportView,
                GenFault,
            >(rep@),
            Err(e) => spec_generate(data@.map_values(|x: CsvRow| x@)) == Err::<
                ReportView,
                GenFault,
            >(e@),
        },
{
    let ghost rows = data@.map_values(|x: CsvRow| x@);
    let mut processes_started: u32 = 0;
    let mut processes_completed: u32 = 0;
    let mut flagged: Vec<ReportRow> = Vec::new();
    let mut store: Vec<(String, Timestamp)> = Vec::new();
    let mut i: usize = 0;
    proof {
        assert(flagged@.map_values(|r: ReportRow| r@) =~= Seq::<FindingView>::empty());
        assert(store_map(store@) =~= Map::<Seq<char>, TimeView>::empty());
    }
    while i < data.len()
        invariant
            i <= data@.len(),
            data@.len() <= u32::MAX,
            rows == data@.map_values(|x: CsvRow| x@),
            processes_started + processes_completed == i,
            spec_generate(rows) == spec_generate_from(
                rows,
                i as int,
                store_map(store@),
                ReportView {
                    processes_started: processes_started as int,
                    processes_completed: processes_completed as int,
                    rows: flagged@.map_values(|r: ReportRow| r@),
                },
            ),
        decreases data@.len() - i,
    {
        proof {
            assert(rows[i as int] == data@[i as int]@);
        }
        let row = &data[i];
        match row.status {
            Status::End => {
                match store_lookup(&store, &row.process_id) {
                    None => {
                        return Err(GenerationError::MissingStartLog { position: i + 1 });
                    },
                    Some(start) => {
                        let duration = row.timestamp.as_seconds() - start.as_seconds();
                        match classify_duration(duration) {
                            Some(severity) => {
                                let ghost old_flagged = flagged@;
                                flagged.push(
                                    ReportRow {
                                        process_id: row.process_id.clone(),
                                        severity,
                                        duration_seconds: duration,
                                    },
                                );
                                proof {
                                    assert(flagged@.map_values(|r: ReportRow| r@)
                                        =~~= old_flagged.map_values(|r: ReportRow| r@).push(
                                        flagged@.last()@,
                                    ));
                                }
                            },
                            None => {},
                        }
                        processes_completed = processes_completed + 1;
                    },
                }
            },
            Status::Start => {
                let ghost old_store = store@;
                store.push((row.process_id.clone(), row.timestamp));
                proof {
                    assert(store@.drop_last() =~= old_store);
                    assert(store_map(store@) == store_map(old_store).insert(
                        row.process_id@,
                        row.timestamp@,
                    ));
                }
                processes_started = processes_started + 1;
            },
        }
        i += 1;
    }
    Ok(Report { processes_started, processes_completed, rows: flagged })
}

/// Which pairs the input holds: a `START` row strictly before an `END` row
/// with the same process id.
pub open spec fn has_pair(rows: Seq<RowView>, pid: Seq<char>) -> bool {
    exists|a: int, b: int|
        0 <= a < b < rows.len() && rows[a].status == Status::Start && rows[b].status == Status::End
            && rows[a].process_id == pid && rows[b].process_id == pid
}

/// Over a successful run, `processes_started + processes_completed` equals
/// the number of rows consumed, and each finding's process id corresponds
/// to a `START`/`END` pair present in the input.
pub proof fn lemma_generate_accounts(rows: Seq<RowView>, rep: ReportView)
    requires
        spec_generate(rows) == Ok::<ReportView, GenFault>(rep),
    ensures
        rep.processes_started + rep.processes_completed == rows.len(),
        forall|t: int| 0 <= t < rep.rows.len() ==> has_pair(rows, #[trigger] rep.rows[t].process_id),
{
    let acc = ReportView { processes_started: 0, processes_completed: 0, rows: Seq::empty() };
    lemma_generate_from_accounts(rows, 0, Map::empty(), acc, rep);
}

proof fn lemma_generate_from_accounts(
    rows: Seq<RowView>,
    i: int,
    store: Map<Seq<char>, TimeView>,
    acc: ReportView,
    rep: ReportView,
)
    requires
        0 <= i <= rows.len(),
        spec_generate_from(rows, i, store, acc) == Ok::<ReportView, GenFault>(rep),
        forall|k: Seq<char>|
            store.contains_key(k) ==> exists|a: int|
                0 <= a < i && rows[a].status == Status::Start && (#[trigger] rows[a].process_id)
                    == k,
        forall|t: int| 0 <= t < acc.rows.len() ==> has_pair(rows, #[trigger] acc.rows[t].process_id),
    ensures
        rep.processes_started + rep.processes_completed == acc.processes_started
            + acc.processes_completed + (rows.len() - i),
        forall|t: int| 0 <= t < rep.rows.len() ==> has_pair(rows, #[trigger] rep.rows[t].process_id),
    decreases rows.len() - i,
{
    if i == rows.len() {
    } else {
        let row = rows[i];
        if row.status == Status::End {
            let duration = row.timestamp.total_seconds() - store[row.process_id].total_seconds();
            let flagged = match spec_classify(duration) {
                Some(severity) => acc.rows.push(
                    FindingView { process_id: row.process_id, severity, duration_seconds: duration },
                ),
                None => acc.rows,
            };
            let acc2 = ReportView {
                processes_started: acc.processes_started,
                processes_completed: acc.processes_completed + 1,
                rows: flagged,
            };
            assert(store.contains_key(row.process_id));
            assert(exists|a: int|
                0 <= a < i && rows[a].status == Status::Start && (#[trigger] rows[a].process_id)
                    == row.process_id);
            let a = choose|a: int|
                0 <= a < i && rows[a].status == Status::Start && (#[trigger] rows[a].process_id)
                    == row.process_id;
            assert(has_pair(rows, row.process_id));
            assert(forall|t: int|
                0 <= t < flagged.len() ==> has_pair(rows, #[trigger] flagged[t].process_id));
            lemma_generate_from_accounts(rows, i + 1, store, acc2, rep);
        } else {
            let store2 = store.insert(row.process_id, row.timestamp);
            let acc2 = ReportView {
                processes_started: acc.processes_started + 1,
                processes_completed: acc.processes_completed,
                rows: acc.rows,
            };
            assert forall|k: Seq<char>| store2.contains_key(k) implies exists|a: int|
                0 <= a < i + 1 && rows[a].status == Status::Start && (#[trigger] rows[a].process_id)
                    == k by {
                if k == row.process_id {
                    assert(rows[i].status == Status::Start && rows[i].process_id == k);
                } else {
                    assert(store.contains_key(k));
                }
            }
            lemma_generate_from_accounts(rows, i + 1, store2, acc2, rep);
        }
    }
}

/// The report is a function of the row sequence alone: two runs over the
/// same rows yield the very same report (the same counts and the same
/// findings in the same order), or the very same error.
pub proof fn lemma_generate_deterministic(
    rows: Seq<RowView>,
    r1: Result<ReportView, GenFault>,
    r2: Result<ReportView, GenFault>,
)
    requires
        r1 == spec_generate(rows),
        r2 == spec_generate(rows),
    ensures
        r1 == r2,
{
}

} // verus!
