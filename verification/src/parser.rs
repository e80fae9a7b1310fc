//! The CSV parser: raw log text to validated rows.
//!
//! A line is split on commas into white-space-trimmed fields; a row needs
//! at most four of them (timestamp, description, status, process id).  The
//! timestamp field splits on `:` into segments that must each parse as a
//! `u32`; no range check is applied to them, by design.  Parsing is
//! fail-fast: the first bad line ends it, and the error names that line's
//! 1-indexed number.
//!
//! [`spec_parse`] is the mathematical parser the executable one is proved
//! against.  A malformed line can also leave the parse without an answer
//! ([`ParseOutcome::Aborts`]): a line whose timestamp has fewer than three
//! segments, or that has fewer than four fields, once the earlier checks
//! passed.  On such input [`try_parse_csv`] returns `None`, and
//! [`parse_csv`] requires the input to avoid it.

use crate::errors::ParseError;
use crate::errors::ParseFault;
use crate::numbers::parse_u32;
use crate::numbers::parses_as_u32;
use crate::numbers::u32_value;
use crate::rows::CsvRow;
use crate::rows::RowView;
use crate::rows::Status;
use crate::rows::TimeView;
use crate::rows::Timestamp;
use crate::text::lemma_split_on_nonempty;
use crate::text::spec_lines;
use crate::text::split_lines;
use crate::text::split_on;
use crate::text::split_str;
use crate::text::str_eq;
use crate::text::trim_spec;
use crate::text::trim_str;
use vstd::prelude::*;

verus! {

/// What a single line can fail with; the caller attaches the line number.
#[derive(Clone, Copy, PartialEq, Eq, Structural, Debug)]
pub enum LineFault {
    TooManyColumns,
    BadTimestamp,
    BadStatus,
}

/// What parsing a single line yields: a row, a fault, or no answer at all
/// (the line is malformed in a way the row format gives no error for).
pub ghost enum LineOutcome {
    Row(RowView),
    Fault(LineFault),
    Aborts,
}

/// What parsing a whole text yields.
pub ghost enum ParseOutcome {
    Rows(Seq<RowView>),
    Fault(ParseFault),
    Aborts,
}

/// The comma-separated fields of one line, each trimmed of surrounding
/// white space.
pub open spec fn spec_fields(line: Seq<char>) -> Seq<Seq<char>> {
    split_on(line, ',').map_values(|f: Seq<char>| trim_spec(f))
}

/// Every `:`-separated segment of the timestamp field parses as a `u32`.
pub open spec fn segments_ok(segs: Seq<Seq<char>>) -> bool {
    forall|i: int| 0 <= i < segs.len() ==> parses_as_u32(segs[i])
}

/// Parses one line: at most 4 fields; field 0 a `:`-separated all-numeric
/// timestamp of at least three segments (extra numeric segments are
/// ignored); field 2 exactly `START` or `END`; field 1 the description and
/// field 3 the process id.  The checks run in this order, and the first
/// failure decides the outcome.
pub open spec fn spec_parse_line(line: Seq<char>) -> LineOutcome {
    let fields = spec_fields(line);
    if fields.len() > 4 {
        LineOutcome::Fault(LineFault::TooManyColumns)
    } else {
        let segs = split_on(fields[0], ':');
        if !segments_ok(segs) {
            LineOutcome::Fault(LineFault::BadTimestamp)
        } else if segs.len() < 3 {
            LineOutcome::Aborts
        } else {
            let ts = TimeView {
                hour: u32_value(segs[0]),
                minute: u32_value(segs[1]),
                second: u32_value(segs[2]),
            };
            if fields.len() < 3 {
                LineOutcome::Aborts
            } else if fields[2] != "START"@ && fields[2] != "END"@ {
                LineOutcome::Fault(LineFault::BadStatus)
            } else if fields.len() < 4 {
                LineOutcome::Aborts
            } else {
                LineOutcome::Row(
                    RowView {
                        timestamp: ts,
                        description: fields[1],
                        status: if fields[2] == "START"@ {
                            Status::Start
                        } else {
                            Status::End
                        },
                        process_id: fields[3],
                    },
                )
            }
        }
    }
}

/// Attaches the 1-indexed line number to a line's fault.
pub open spec fn fault_at(k: LineFault, line: int) -> ParseFault {
    match k {
        LineFault::TooManyColumns => ParseFault::UnexpectedColumnCount { line },
        LineFault::BadTimestamp => ParseFault::InvalidTimestamp { line },
        LineFault::BadStatus => ParseFault::InvalidStatus { line },
    }
}

/// Parses the lines from index `i` on, fail-fast.
pub open spec fn spec_parse_from(lines: Seq<Seq<char>>, i: int) -> ParseOutcome
    decreases lines.len() - i,
{
    if i < 0 || i >= lines.len() {
        ParseOutcome::Rows(Seq::empty())
    } else {
        match spec_parse_line(lines[i]) {
            LineOutcome::Aborts => ParseOutcome::Aborts,
            LineOutcome::Fault(k) => ParseOutcome::Fault(fault_at(k, i + 1)),
            LineOutcome::Row(r) => match spec_parse_from(lines, i + 1) {
                ParseOutcome::Rows(rest) => ParseOutcome::Rows(seq![r] + rest),
                ParseOutcome::Fault(e) => ParseOutcome::Fault(e),
                ParseOutcome::Aborts => ParseOutcome::Aborts,
            },
        }
    }
}

/// The mathematical parser: the meaning of `parse_csv` on any text.
pub open spec fn spec_parse(text: Seq<char>) -> ParseOutcome {
    spec_parse_from(spec_lines(text), 0)
}

/// Prepends already-parsed rows to the outcome of the remaining lines.
pub open spec fn prepend_rows(rs: Seq<RowView>, o: ParseOutcome) -> ParseOutcome {
    match o {
        ParseOutcome::Rows(rest) => ParseOutcome::Rows(rs + rest),
        ParseOutcome::Fault(e) => ParseOutcome::Fault(e),
        ParseOutcome::Aborts => ParseOutcome::Aborts,
    }
}

/// Parses one line of the log.
fn parse_line(line: &str) -> (r: Option<Result<CsvRow, LineFault>>)
    ensures
        match r {
            None => spec_parse_line(line@) is Aborts,
            Some(Ok(row)) => spec_parse_line(line@) == LineOutcome::Row(row@),
            Some(Err(k)) => spec_parse_line(line@) == LineOutcome::Fault(k),
        },
{
    let raw = split_str(line, ',');
    let ghost fields_spec = spec_fields(line@);
    let mut fields: Vec<String> = Vec::new();
    let mut i: usize = 0;
    while i < raw.len()
        invariant
            i <= raw@.len(),
            raw@.map_values(|p: String| p@) == split_on(line@, ','),
            fields_spec == spec_fields(line@),
            fields@.len() == i,
            forall|j: int| 0 <= j < i ==> fields@[j]@ == fields_spec[j],
        decreases raw@.len() - i,
    {
        proof {
            assert(raw@.map_values(|p: String| p@)[i as int] == raw@[i as int]@);
        }
        let f = trim_str(raw[i].as_str());
        fields.push(f);
        i += 1;
    }
    proof {
        assert(fields_spec.len() == raw@.len());
    }
    if fields.len() > 4 {
        return Some(Err(LineFault::TooManyColumns));
    }
    proof {
        lemma_split_on_nonempty(line@, ',');
        assert(fields@[0]@ == fields_spec[0]);
    }
    let segs = split_str(fields[0].as_str(), ':');
    let ghost segs_spec = split_on(fields_spec[0], ':');
    let mut vals: Vec<u32> = Vec::new();
    let mut k: usize = 0;
    while k < segs.len()
        invariant
            k <= segs@.len(),
            fields_spec == spec_fields(line@),
            fields_spec.len() <= 4,
            segs_spec == split_on(fields_spec[0], ':'),
            segs@.map_values(|p: String| p@) == segs_spec,
            vals@.len() == k,
            forall|j: int| 0 <= j < k ==> parses_as_u32(#[trigger] segs_spec[j]),
            forall|j: int| 0 <= j < k ==> vals@[j] as int == u32_value(#[trigger] segs_spec[j]),
        decreases segs@.len() - k,
    {
        proof {
            assert(segs@.map_values(|p: String| p@)[k as int] == segs@[k as int]@);
        }
        match parse_u32(segs[k].as_str()) {
            Some(v) => {
                proof {
                    assert(parses_as_u32(segs_spec[k as int]));
                    assert(v as int == u32_value(segs_spec[k as int]));
                }
                let ghost old_vals = vals@;
                vals.push(v);
                proof {
                    assert(vals@[k as int] == v);
                    assert(forall|j: int| 0 <= j < k ==> vals@[j] == old_vals[j]);
                }
            },
            None => {
                proof {
                    assert(!segments_ok(segs_spec));
                }
                return Some(Err(LineFault::BadTimestamp));
            },
        }
        k += 1;
    }
    proof {
        assert(segments_ok(segs_spec));
    }
    if segs.len() < 3 {
        return None;
    }
    let ts = Timestamp { hour: vals[0], minute: vals[1], second: vals[2] };
    if fields.len() < 3 {
        return None;
    }
    proof {
        assert(fields@[2]@ == fields_spec[2]);
    }
    let is_start = str_eq(fields[2].as_str(), "START");
    let is_end = str_eq(fields[2].as_str(), "END");
    if !is_start && !is_end {
        return Some(Err(LineFault::BadStatus));
    }
    if fields.len() < 4 {
        return None;
    }
    let status = if is_start {
        Status::Start
    } else {
        Status::End
    };
    proof {
        assert(fields@[1]@ == fields_spec[1]);
        assert(fields@[3]@ == fields_spec[3]);
    }
    let row = CsvRow {
        timestamp: ts,
        description: fields[1].clone(),
        status,
        process_id: fields[3].clone(),
    };
    Some(Ok(row))
}

/// Parses the whole log text.  `None` reports input on which the parse has
/// no answer (see [`spec_parse`]); otherwise the rows, or the first line's
/// error, exactly as the mathematical parser gives them.
pub fn try_parse_csv(input: &str) -> (r: Option<Result<Vec<CsvRow>, ParseError>>)
    ensures
        match r {
            None => spec_parse(input@) is Aborts,
            Some(Ok(rows)) => spec_parse(input@) == ParseOutcome::Rows(
                rows@.map_values(|x: CsvRow| x@),
            ),
            Some(Err(e)) => spec_parse(input@) == ParseOutcome::Fault(e@),
        },
{
    let lines = split_lines(input);
    let ghost lv = lines@.map_values(|l: String| l@);
    let mut rows: Vec<CsvRow> = Vec::new();
    let mut i: usize = 0;
    proof {
        assert(rows@.map_values(|x: CsvRow| x@) =~= Seq::<RowView>::empty());
        let o = spec_parse_from(lv, 0);
        if o is Rows {
            assert(Seq::<RowView>::empty() + o->Rows_0 =~= o->Rows_0);
        }
    }
    while i < lines.len()
        invariant
            i <= lines@.len(),
            lv == lines@.map_values(|l: String| l@),
            lv == spec_lines(input@),
            spec_parse(input@) == prepend_rows(
                rows@.map_values(|x: CsvRow| x@),
                spec_parse_from(lv, i as int),
            ),
        decreases lines@.len() - i,
    {
        proof {
            assert(lv[i as int] == lines@[i as int]@);
        }
        match parse_line(lines[i].as_str()) {
            None => {
                return None;
            },
            Some(Err(k)) => {
                let e = match k {
                    LineFault::TooManyColumns => ParseError::UnexpectedColumnCount { line: i + 1 },
                    LineFault::BadTimestamp => ParseError::InvalidTimestamp { line: i + 1 },
                    LineFault::BadStatus => ParseError::InvalidStatus { line: i + 1 },
                };
                proof {
                    assert(e@ == fault_at(k, i + 1));
                }
                return Some(Err(e));
            },
            Some(Ok(row)) => {
                let ghost old_rows = rows@;
                rows.push(row);
                proof {
                    let rest = spec_parse_from(lv, i + 1);
                    assert(rows@.map_values(|x: CsvRow| x@) =~~= old_rows.map_values(
                        |x: CsvRow| x@,
                    ).push(row@));
                    if rest is Rows {
                        assert(old_rows.map_values(|x: CsvRow| x@) + (seq![row@] + rest->Rows_0)
                            =~~= rows@.map_values(|x: CsvRow| x@) + rest->Rows_0);
                    }
                }
            },
        }
        i += 1;
    }
    proof {
        assert(spec_parse_from(lv, lines@.len() as int) == ParseOutcome::Rows(
            Seq::<RowView>::empty(),
        ));
        assert(rows@.map_values(|x: CsvRow| x@) + Seq::<RowView>::empty() =~~= rows@.map_values(
            |x: CsvRow| x@,
        ));
    }
    Some(Ok(rows))
}

/// Turns the raw log text into an ordered sequence of validated rows, or
/// the first line's error.  Fail-fast: no partial row set is returned.
pub fn parse_csv(input: String) -> (r: Result<Vec<CsvRow>, ParseError>)
    requires
        !(spec_parse(input@) is Aborts),
    ensures
        match r {
            Ok(rows) => spec_parse(input@) == ParseOutcome::Rows(rows@.map_values(|x: CsvRow| x@)),
            Err(e) => spec_parse(input@) == ParseOutcome::Fault(e@),
        },
{
    match try_parse_csv(input.as_str()) {
        Some(r) => r,
        None => vstd::pervasive::unreached(),
    }
}

/// A successful parse yields exactly one row per line, in line order, and
/// every row's status is `START` or `END`.
pub proof fn lemma_parse_row_per_line(text: Seq<char>, rows: Seq<RowView>)
    requires
        spec_parse(text) == ParseOutcome::Rows(rows),
    ensures
        rows.len() == spec_lines(text).len(),
        forall|j: int|
            0 <= j < rows.len() ==> spec_parse_line(spec_lines(text)[j]) == LineOutcome::Row(
                rows[j],
            ),
        forall|j: int|
            0 <= j < rows.len() ==> rows[j].status == Status::Start || rows[j].status
                == Status::End,
{
    lemma_parse_from_rows(spec_lines(text), 0, rows);
}

proof fn lemma_parse_from_rows(lines: Seq<Seq<char>>, i: int, rows: Seq<RowView>)
    requires
        0 <= i <= lines.len(),
        spec_parse_from(lines, i) == ParseOutcome::Rows(rows),
    ensures
        rows.len() == lines.len() - i,
        forall|j: int|
            0 <= j < rows.len() ==> spec_parse_line(lines[i + j]) == LineOutcome::Row(rows[j]),
    decreases lines.len() - i,
{
    if i == lines.len() {
    } else {
        match spec_parse_line(lines[i]) {
            LineOutcome::Row(r) => {
                match spec_parse_from(lines, i + 1) {
                    ParseOutcome::Rows(rest) => {
                        lemma_parse_from_rows(lines, i + 1, rest);
                        assert(rows == seq![r] + rest);
                        assert(rows[0] == r);
                        assert(forall|j: int| 1 <= j < rows.len() ==> rows[j] == rest[j - 1]);
                    },
                    ParseOutcome::Fault(_) => {},
                    ParseOutcome::Aborts => {},
                }
            },
            LineOutcome::Fault(_) => {},
            LineOutcome::Aborts => {},
        }
    }
}

} // verus!
