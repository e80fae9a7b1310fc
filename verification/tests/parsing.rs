use process_report::get_timestamp;
use process_report::numbers::parse_u32;
use process_report::numbers::usize_to_string;
use process_report::parse_csv;
use process_report::try_parse_csv;
use process_report::CsvRow;
use process_report::ParseError;
use process_report::Status;

#[test]
fn lib_should_parse_valid_input() {
    let input = String::from("11:35:23,scheduled task 032, START,37980\n11:35:56,scheduled task 032, END,37980\n11:36:11,scheduled task 796, START,57672");
    let result = parse_csv(String::from(input));

    let expected_value = CsvRow {
        timestamp: get_timestamp(11, 35, 23),
        description: String::from("scheduled task 032"),
        status: Status::Start,
        process_id: String::from("37980"),
    };

    match result {
        Ok(e) => assert_eq!(e[0], expected_value),
        Err(e) => panic!("Expected Ok, received: {}", e.message()),
    }
}

#[test]
fn lib_should_return_error_on_invalid_time() {
    let input = String::from("11:35:23,scheduled task 032, START,37980\n11:35:5d,scheduled task 032, END,37980\n11:36:11,scheduled task 796, START,57672");
    let result = parse_csv(String::from(input));

    match result {
        Ok(_) => panic!("Expected Err, receive Ok"),
        Err(e) => assert_eq!(e.message(), "invalid timestamp, line 2"),
    }
}

#[test]
fn lib_should_return_error_on_unexpected_column() {
    let input = String::from("11:35:23,scheduled task 032, START,37980\n11:35:56,scheduled task 032, END,37980\n11:36:11,scheduled task 796, START,57672,bad column");
    let result = parse_csv(String::from(input));

    match result {
        Ok(_) => panic!("Expected Err, receive Ok"),
        Err(e) => assert_eq!(e.message(), "unexpected column, line 3"),
    }
}

#[test]
fn lib_should_return_error_on_invalid_status() {
    let input = String::from("11:35:23,scheduled task 032, START,37980\n11:35:56,scheduled task 032,not a status,37980\n11:36:11,scheduled task 796, START,57672");
    let result = parse_csv(String::from(input));

    match result {
        Ok(_) => {
            panic!("Expected Err, receive Ok")
        }
        Err(e) => assert_eq!(e.message(), "invalid status, line 2"),
    }
}

#[test]
fn main_should_parse_valid_input() {
    let input = String::from("11:35:23,scheduled task 032, START,37980\n11:35:56,scheduled task 032, END,37980\n11:36:11,scheduled task 796, START,57672");
    let result = parse_csv(String::from(input));

    let expected_value = CsvRow {
        timestamp: get_timestamp(11, 35, 23),
        description: String::from("scheduled task 032"),
        status: Status::Start,
        process_id: String::from("37980"),
    };

    match result {
        Ok(e) => assert_eq!(e[0], expected_value),
        Err(e) => panic!("Expected Ok, received: {}", e.message()),
    }
}

#[test]
fn main_should_return_error_on_invalid_time() {
    let input = String::from("11:35:23,scheduled task 032, START,37980\n11:35:5d,scheduled task 032, END,37980\n11:36:11,scheduled task 796, START,57672");
    let result = parse_csv(String::from(input));

    match result {
        Ok(_) => panic!("Expected Err, receive Ok"),
        Err(e) => assert_eq!(e.message(), "invalid timestamp, line 2"),
    }
}

#[test]
fn main_should_return_error_on_unexpected_column() {
    let input = String::from("11:35:23,scheduled task 032, START,37980\n11:35:56,scheduled task 032, END,37980\n11:36:11,scheduled task 796, START,57672,bad column");
    let result = parse_csv(String::from(input));

    match result {
        Ok(_) => panic!("Expected Err, receive Ok"),
        Err(e) => assert_eq!(e.message(), "unexpected column, line 3"),
    }
}

#[test]
fn main_should_return_error_on_invalid_status() {
    let input = String::from("11:35:23,scheduled task 032, START,37980\n11:35:56,scheduled task 032,not a status,37980\n11:36:11,scheduled task 796, START,57672");
    let result = parse_csv(String::from(input));

    match result {
        Ok(_) => {
            panic!("Expected Err, receive Ok")
        }
        Err(e) => assert_eq!(e.message(), "invalid status, line 2"),
    }
}

#[test]
fn parse_yields_one_row_per_line_in_order() {
    let input = String::from("11:35:23,a, START,1\n11:35:56,b, END,1\n11:36:11,c, START,2");
    let rows = parse_csv(input).expect("well-formed input must parse");
    assert_eq!(rows.len(), 3);
    assert_eq!(rows[0].description, "a");
    assert_eq!(rows[1].description, "b");
    assert_eq!(rows[2].description, "c");
    for row in &rows {
        assert!(row.status == Status::Start || row.status == Status::End);
    }
}

#[test]
fn parse_empty_input_yields_no_rows_and_no_error() {
    let rows = parse_csv(String::new()).expect("empty input is not an error");
    assert_eq!(rows.len(), 0);
}

#[test]
fn parse_ignores_trailing_newline() {
    let rows = parse_csv(String::from("11:35:23,task,START,1\n")).expect("trailing newline ok");
    assert_eq!(rows.len(), 1);
}

#[test]
fn parse_strips_carriage_returns() {
    let rows = parse_csv(String::from("11:35:23,task,START,1\r\n11:35:56,task,END,1"))
        .expect("crlf endings ok");
    assert_eq!(rows.len(), 2);
    assert_eq!(rows[0].process_id, "1");
}

#[test]
fn parse_trims_each_field() {
    let rows = parse_csv(String::from("  11:35:23 ,  task  , START ,  42  ")).expect("trimmed");
    assert_eq!(rows[0].timestamp, get_timestamp(11, 35, 23));
    assert_eq!(rows[0].description, "task");
    assert_eq!(rows[0].process_id, "42");
}

#[test]
fn parse_accepts_out_of_range_clock_fields() {
    let rows = parse_csv(String::from("99:99:99,task,START,1")).expect("no range validation");
    assert_eq!(rows[0].timestamp, get_timestamp(99, 99, 99));
}

#[test]
fn parse_accepts_plus_and_leading_zeros_in_timestamp() {
    let rows = parse_csv(String::from("+11:035:00023,task,START,1")).expect("u32 syntax");
    assert_eq!(rows[0].timestamp, get_timestamp(11, 35, 23));
}

#[test]
fn parse_rejects_timestamp_segment_over_u32() {
    let result = parse_csv(String::from("4294967296:00:00,task,START,1"));
    assert_eq!(result.unwrap_err(), ParseError::InvalidTimestamp { line: 1 });
}

#[test]
fn parse_rejects_empty_line_as_invalid_timestamp() {
    let result = parse_csv(String::from("11:35:23,task,START,1\n\n11:36:11,task,END,1"));
    assert_eq!(result.unwrap_err(), ParseError::InvalidTimestamp { line: 2 });
}

#[test]
fn parse_error_carries_structured_line_number() {
    let result = parse_csv(String::from("11:35:23,task,START,1\n11:35:56,task,END,1,x,y"));
    assert_eq!(
        result.unwrap_err(),
        ParseError::UnexpectedColumnCount { line: 2 }
    );
}

#[test]
fn parse_error_message_renders_multi_digit_line_numbers() {
    let mut input = String::new();
    for _ in 0..11 {
        input.push_str("11:35:23,task,START,1\n");
    }
    input.push_str("11:35:56,task,maybe,1");
    let result = parse_csv(input);
    assert_eq!(result.unwrap_err().message(), "invalid status, line 12");
}

#[test]
fn try_parse_reports_short_lines_as_unanswerable() {
    // three fields only: the row format has no error for this shape
    assert!(try_parse_csv("11:35:23,task,START").is_none());
    // a two-segment timestamp on an otherwise complete row
    assert!(try_parse_csv("11:35,task,START,1").is_none());
    // a complete log is answered
    assert!(try_parse_csv("11:35:23,task,START,1").is_some());
}

#[test]
fn scenario_invalid_status_fails_on_line_one() {
    let result = parse_csv(String::from("11:35:23,task,not-a-status,1"));
    assert_eq!(result.unwrap_err(), ParseError::InvalidStatus { line: 1 });
}

#[test]
fn status_of_only_spaces_is_invalid() {
    let result = parse_csv(String::from("11:35:23,task,   ,1"));
    assert_eq!(result.unwrap_err(), ParseError::InvalidStatus { line: 1 });
}

#[test]
fn status_comparison_is_case_sensitive() {
    let result = parse_csv(String::from("11:35:23,task,start,1"));
    assert_eq!(result.unwrap_err(), ParseError::InvalidStatus { line: 1 });
}

#[test]
fn number_parsing_matches_std() {
    assert_eq!(parse_u32("0"), Some(0));
    assert_eq!(parse_u32("+7"), Some(7));
    assert_eq!(parse_u32("4294967295"), Some(4294967295));
    assert_eq!(parse_u32("4294967296"), None);
    assert_eq!(parse_u32(""), None);
    assert_eq!(parse_u32("+"), None);
    assert_eq!(parse_u32("-1"), None);
    assert_eq!(parse_u32("1 2"), None);
}

#[test]
fn number_rendering_matches_std() {
    assert_eq!(usize_to_string(0), "0");
    assert_eq!(usize_to_string(7), "7");
    assert_eq!(usize_to_string(120), "120");
    assert_eq!(usize_to_string(98765), format!("{}", 98765));
}
