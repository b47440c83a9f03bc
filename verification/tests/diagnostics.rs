use res_bot::diagnostics::{stamped_line, utf16_length, DiagnosticLog, MAX_LINES};

#[test]
fn the_log_keeps_only_the_latest_lines() {
    let mut log = DiagnosticLog::new();
    for index in 0..MAX_LINES + 3 {
        log.append(format!("line {index}"));
    }
    assert_eq!(log.len(), MAX_LINES);
    let text = log.text();
    assert!(text.starts_with("line 3\r\nline 4\r\n"));
    assert!(text.ends_with("\r\nline 502"));
}

#[test]
fn a_cleared_log_is_empty() {
    let mut log = DiagnosticLog::new();
    log.append("a".to_owned());
    log.append("b".to_owned());
    assert_eq!(log.text(), "a\r\nb");
    log.clear();
    assert_eq!(log.len(), 0);
    assert_eq!(log.text(), "");
}

#[test]
fn lines_are_stamped_with_padded_time() {
    assert_eq!(stamped_line(3, 7, "start"), "[+0003.007] start");
    assert_eq!(stamped_line(12_345, 999, ""), "[+12345.999] ");
}

#[test]
fn the_caret_counts_utf16_units() {
    assert_eq!(utf16_length("ab"), 2);
    assert_eq!(utf16_length("я😀"), 3);
}
