use kalshi_bot::amount::parse_i64;
use kalshi_bot::summary::{
    extract_between, extract_error_lines, extract_opportunities, extract_value,
    format_highlights, format_ttl, run_header, webhook_message,
};

#[test]
fn ttl_shows_minutes_and_seconds() {
    assert_eq!(format_ttl(125), "TTL 2m05s");
    assert_eq!(format_ttl(-3), "TTL 0m00s");
    assert_eq!(format_ttl(3600), "TTL 60m00s");
}

#[test]
fn between_and_value_extraction() {
    assert_eq!(extract_between("a title='X Y' b", "title='", "'").unwrap(), "X Y");
    assert!(extract_between("a title='X", "title='", "'").is_none());
    assert_eq!(extract_value("ttl=30s yes=0.9", "ttl=").unwrap(), "30s");
    assert_eq!(extract_value("ttl=   7 x", "ttl=").unwrap(), "7");
    assert!(extract_value("ttl=  ", "ttl=").is_none());
    assert!(extract_value("none", "ttl=").is_none());
}

#[test]
fn integers_parse_like_std() {
    let c = |s: &str| s.chars().collect::<Vec<char>>();
    assert_eq!(parse_i64(&c("-42")), Some(-42));
    assert_eq!(parse_i64(&c("+7")), Some(7));
    assert_eq!(parse_i64(&c("9223372036854775807")), Some(i64::MAX));
    assert_eq!(parse_i64(&c("-9223372036854775808")), Some(i64::MIN));
    assert_eq!(parse_i64(&c("9223372036854775808")), None);
    assert_eq!(parse_i64(&c("123456789012345678901234567890")), None);
    assert_eq!(parse_i64(&c("")), None);
    assert_eq!(parse_i64(&c("-")), None);
    assert_eq!(parse_i64(&c("1x")), None);
}

#[test]
fn opportunities_line_is_found() {
    let log = "Fetching markets...\nOpportunities found:  3 \nOpportunities found: 9";
    assert_eq!(extract_opportunities(log).unwrap(), "3");
    assert!(extract_opportunities("nothing\n").is_none());
}

#[test]
fn error_lines_take_last_error_and_continuations() {
    let log = "Error: first\nok\nError: second\n  0: cause\n  1: deeper\nafter";
    assert_eq!(
        extract_error_lines(log, 6),
        vec!["Error: second", "  0: cause", "  1: deeper"]
    );
    assert_eq!(
        extract_error_lines(log, 2),
        vec!["Error: second", "  0: cause", "..."]
    );
    assert!(extract_error_lines("all good", 6).is_empty());
}

#[test]
fn highlights_list_skips_and_qualifies() {
    let log = "Evaluating market M1 | title='BTC up' subtitle='' event='E' close=x ttl=125s yes=0.95 no=0.10\n  -> skip: combined 1.0500 >= threshold 1.0000\nEvaluating market M2 | title='ETH up' ttl=30s\n  -> QUALIFY: fast path \nnoise";
    assert_eq!(
        format_highlights(log, 6),
        "\n- *BTC up* (M1) \u{2014} YES 0.95 / NO 0.10 \u{2014} TTL 2m05s \u{2014} *combined 1.0500*\n- *ETH up* (M2) \u{2014} TTL 0m30s \u{2014} *fast path*"
    );
}

#[test]
fn highlights_stop_at_limit() {
    let log = "Evaluating market A | title='a'\n  -> skip: not BTC-related\nEvaluating market B | title='b'\n  -> skip: x";
    assert_eq!(format_highlights(log, 1), "\n- *a* (A) \u{2014} *not BTC-related*");
    assert_eq!(format_highlights("", 3), "");
}

#[test]
fn run_header_reports_result_and_highlights() {
    let log = "Opportunities found: 2\nEvaluating market M | title='T' ttl=5s\n  -> QUALIFY: fast";
    assert_eq!(
        run_header(true, "2026-01-01T00:00:00Z", log),
        "*Kalshi 15m bot run* `DRY_RUN` `2026-01-01T00:00:00Z`\nOpportunities: 2\nResult: OK\n\n*Highlights*\n- *T* (M) \u{2014} TTL 0m05s \u{2014} *fast*"
    );
    let failed = "Error: boom\n  0: cause";
    assert_eq!(
        run_header(false, "t", failed),
        "*Kalshi 15m bot run* `LIVE` `t`\nResult: ERROR\n\n*Error Details*\n- Error: boom\n-   0: cause"
    );
}

#[test]
fn webhook_message_wraps_log() {
    assert_eq!(webhook_message("H", None), "H");
    assert_eq!(webhook_message("H", Some("a\nb")), "H\n\n```\na\nb\n```");
}
