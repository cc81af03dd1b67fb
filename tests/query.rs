use tool_supervisor::{blank_output_error, parse_failure_message, query_result};

#[test]
fn blank_trimmed_output_is_an_error() {
    assert_eq!(
        blank_output_error("", "php: not found"),
        Some("Command returned empty output. Stderr: php: not found".to_string())
    );
    assert_eq!(blank_output_error("[]", "warning"), None);
}

#[test]
fn parse_failure_message_quotes_reason_and_output() {
    assert_eq!(
        parse_failure_message("EOF while parsing", "{"),
        "Failed to parse JSON: EOF while parsing. Output was: {"
    );
}

#[test]
fn query_result_parses_json_output() {
    let v = query_result(b"{\"gold\": 1200}\n", b"").unwrap();
    assert_eq!(v.get("gold").and_then(|g| g.as_i64()), Some(1200));
}

#[test]
fn query_result_rejects_whitespace_only_output() {
    assert_eq!(
        query_result(b"  \n\t", b"fatal error"),
        Err("Command returned empty output. Stderr: fatal error".to_string())
    );
    assert_eq!(query_result(b"", b""), Err("Command returned empty output. Stderr: ".to_string()));
}

#[test]
fn query_result_reports_unparsable_output() {
    let err = query_result(b"not json", b"").unwrap_err();
    assert!(err.starts_with("Failed to parse JSON: "));
    assert!(err.ends_with(". Output was: not json"));
    assert!(err.len() > "Failed to parse JSON: . Output was: not json".len());
}

#[test]
fn query_result_reads_invalid_utf8_lossily() {
    let err = query_result(b"\xff", b"").unwrap_err();
    assert!(err.ends_with(". Output was: \u{FFFD}"));
}
