use process_report::generate_report;
use process_report::get_timestamp;
use process_report::parse_csv;
use process_report::CsvRow;
use process_report::GenerationError;
use process_report::Severity;
use process_report::Status;

fn row(h: u32, m: u32, s: u32, status: Status, pid: &str) -> CsvRow {
    CsvRow {
        timestamp: get_timestamp(h, m, s),
        description: String::from("some description"),
        status,
        process_id: String::from(pid),
    }
}

#[test]
fn should_return_report_on_valid_data() {
    let input = vec![
        row(11, 35, 23, Status::Start, "37980"),
        row(11, 35, 56, Status::End, "37980"),
        row(11, 36, 11, Status::Start, "57672"),
        row(11, 36, 58, Status::Start, "81258"),
        row(11, 42, 18, Status::End, "57672"),
        row(11, 43, 58, Status::Start, "39547"),
        row(11, 56, 58, Status::End, "81258"),
    ];

    let result = generate_report(&input);

    match result {
        Ok(report) => {
            assert_eq!(report.processes_started, 4);
            assert_eq!(report.processes_completed, 3);
            assert_eq!(report.rows.len(), 2);
            assert_eq!(report.rows[0].process_id, "57672");
            assert_eq!(report.rows[0].severity.label(), "WARNING");
            assert_eq!(report.rows[1].process_id, "81258");
            assert_eq!(report.rows[1].severity.label(), "ERROR");
        }
        Err(e) => panic!("Expected Ok, received: {}", e.message()),
    }
}

#[test]
fn should_return_error_on_process_without_start() {
    let input = vec![row(11, 35, 23, Status::End, "37980")];

    let result = generate_report(&input);

    match result {
        Ok(_) => panic!("Expected Err, received Ok"),
        Err(e) => assert_eq!(e.message(), "process has no start log, line 1"),
    }
}

#[test]
fn counts_add_up_to_rows_consumed() {
    let input = vec![
        row(11, 0, 0, Status::Start, "1"),
        row(11, 0, 10, Status::Start, "2"),
        row(11, 0, 20, Status::End, "1"),
        row(11, 0, 30, Status::End, "2"),
        row(11, 0, 40, Status::Start, "3"),
    ];
    let report = generate_report(&input).expect("all ends have starts");
    assert_eq!(
        report.processes_started as usize + report.processes_completed as usize,
        input.len()
    );
}

#[test]
fn generate_is_deterministic_on_identical_rows() {
    let input = vec![
        row(11, 35, 23, Status::Start, "1"),
        row(11, 45, 24, Status::End, "1"),
        row(11, 50, 0, Status::Start, "2"),
        row(12, 2, 0, Status::End, "2"),
    ];
    let first = generate_report(&input).expect("valid");
    let second = generate_report(&input).expect("valid");
    assert_eq!(first, second);
}

#[test]
fn duration_boundaries_classify_as_specified() {
    // 300 s: no finding; 301 s: WARNING; 600 s: WARNING; 601 s: ERROR
    let cases: [(u32, usize, Option<Severity>); 4] = [
        (300, 0, None),
        (301, 1, Some(Severity::Warning)),
        (600, 1, Some(Severity::Warning)),
        (601, 1, Some(Severity::Error)),
    ];
    for (seconds, flagged, severity) in cases {
        let input = vec![
            row(10, 0, 0, Status::Start, "p"),
            row(10, 0, seconds, Status::End, "p"),
        ];
        let report = generate_report(&input).expect("paired");
        assert_eq!(report.rows.len(), flagged);
        if let Some(sev) = severity {
            assert_eq!(report.rows[0].severity, sev);
            assert_eq!(report.rows[0].duration_seconds, seconds as i64);
        }
    }
}

#[test]
fn scenario_short_pair_yields_empty_report() {
    let rows = parse_csv(String::from("11:35:23,task,START,1\n11:35:56,task,END,1"))
        .expect("well-formed");
    let report = generate_report(&rows).expect("paired");
    assert_eq!(report.processes_started, 1);
    assert_eq!(report.processes_completed, 1);
    assert_eq!(report.rows.len(), 0);
}

#[test]
fn scenario_six_hundred_seconds_yields_warning() {
    let rows = parse_csv(String::from("11:35:23,task,START,1\n11:45:23,task,END,1"))
        .expect("well-formed");
    let report = generate_report(&rows).expect("paired");
    assert_eq!(report.rows.len(), 1);
    assert_eq!(report.rows[0].process_id, "1");
    assert_eq!(report.rows[0].severity.label(), "WARNING");
    assert_eq!(report.rows[0].duration_seconds, 600);
}

#[test]
fn scenario_end_without_start_names_position_one() {
    let rows = parse_csv(String::from("11:35:23,task,END,1")).expect("well-formed");
    let result = generate_report(&rows);
    assert_eq!(
        result.unwrap_err(),
        GenerationError::MissingStartLog { position: 1 }
    );
}

#[test]
fn later_start_for_same_process_wins() {
    let input = vec![
        row(10, 0, 0, Status::Start, "p"),
        row(10, 20, 0, Status::Start, "p"),
        row(10, 21, 0, Status::End, "p"),
    ];
    let report = generate_report(&input).expect("paired");
    assert_eq!(report.processes_started, 2);
    assert_eq!(report.processes_completed, 1);
    // 60 s from the second START, not 1260 s from the first
    assert_eq!(report.rows.len(), 0);
}

#[test]
fn negative_duration_passes_through_unflagged() {
    let input = vec![
        row(12, 0, 0, Status::Start, "p"),
        row(11, 0, 0, Status::End, "p"),
    ];
    let report = generate_report(&input).expect("paired");
    assert_eq!(report.processes_completed, 1);
    assert_eq!(report.rows.len(), 0);
}

#[test]
fn findings_keep_row_scan_order() {
    let input = vec![
        row(10, 0, 0, Status::Start, "b"),
        row(10, 1, 0, Status::Start, "a"),
        row(10, 11, 1, Status::End, "b"),
        row(10, 12, 2, Status::End, "a"),
    ];
    let report = generate_report(&input).expect("paired");
    assert_eq!(report.rows.len(), 2);
    assert_eq!(report.rows[0].process_id, "b");
    assert_eq!(report.rows[1].process_id, "a");
}

#[test]
fn out_of_range_clock_fields_still_subtract() {
    let rows = parse_csv(String::from("99:99:99,task,START,1\n100:99:99,task,END,1"))
        .expect("no range validation");
    let report = generate_report(&rows).expect("paired");
    assert_eq!(report.processes_completed, 1);
    // one extra hour: 3600 s, over the error threshold
    assert_eq!(report.rows.len(), 1);
    assert_eq!(report.rows[0].severity.label(), "ERROR");
    assert_eq!(report.rows[0].duration_seconds, 3600);
}

#[test]
fn timestamp_fields_are_kept_as_given() {
    let t = get_timestamp(11, 35, 23);
    assert_eq!(t.hour, 11);
    assert_eq!(t.minute, 35);
    assert_eq!(t.second, 23);
}

#[test]
fn second_end_for_same_process_matches_again() {
    // the recorded start is not consumed by a match
    let input = vec![
        row(10, 0, 0, Status::Start, "p"),
        row(10, 1, 0, Status::End, "p"),
        row(10, 2, 0, Status::End, "p"),
    ];
    let report = generate_report(&input).expect("both ends match the one start");
    assert_eq!(report.processes_started, 1);
    assert_eq!(report.processes_completed, 2);
}
