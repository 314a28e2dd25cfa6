use kalshi_bot::logger::{collected_log, init_logger, push_line};

#[test]
fn empty_log_collects_to_empty_text() {
    let log = init_logger();
    assert_eq!(collected_log(&log), "");
}

#[test]
fn lines_are_joined_by_newlines() {
    let mut log = init_logger();
    push_line(&mut log, "first");
    push_line(&mut log, "");
    push_line(&mut log, "third");
    assert_eq!(collected_log(&log), "first\n\nthird");
    assert_eq!(log.lines.len(), 3);
}
