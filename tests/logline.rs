use tool_supervisor::{format_log_line, log_line};

#[test]
fn log_line_layout() {
    assert_eq!(
        format_log_line("2024-05-01 10:00:00", "WARN", "disk almost full"),
        "[2024-05-01 10:00:00] [WARN] disk almost full"
    );
}

#[test]
fn log_line_shows_level_in_upper_case() {
    assert_eq!(
        log_line("2024-05-01 10:00:00", "info", "parser started"),
        "[2024-05-01 10:00:00] [INFO] parser started"
    );
    assert_eq!(log_line("t", "", ""), "[t] [] ");
}
