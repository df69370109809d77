use agent_mouth::summarize::{
    local_summary, log_is_blank, render_local_summary, summarize_locally, summary_route,
    truncate_for_api, try_summarize_locally, SummaryRoute,
};

fn summarize_local_to_string(input: &str) -> String {
    summarize_locally(input)
}

#[test]
fn test_summarize_locally_with_errors() {
    let input = "INFO: starting server\nERROR: connection refused\nWARN: retry attempt 1\nERROR: timeout after 30s\nINFO: shutdown complete";
    let result = summarize_local_to_string(input);
    assert!(result.contains("Errors:"));
}

#[test]
fn local_summary_counts_lines_case_insensitively() {
    let input = "INFO: starting server\nERROR: connection refused\nWARN: retry attempt 1\nERROR: timeout after 30s\nINFO: shutdown complete";
    let s = local_summary(input);
    assert_eq!(s.total_lines, 5);
    assert_eq!(s.errors, 2);
    assert_eq!(s.warnings, 1);
    assert_eq!(s.failures, 0);
    assert_eq!(s.traces, 0);
    assert_eq!(s.debugs, 0);
    assert_eq!(s.issues, vec!["ERROR: connection refused".to_string(), "ERROR: timeout after 30s".to_string()]);
}

#[test]
fn local_report_text_is_exact() {
    let input = "debug: x\r\nbuild failed\npanic at the disco\n";
    let text = summarize_locally(input);
    let expected = "Log Summary\n━━━━━━━━━━━━━━\n  Total lines: 3\n  Errors:      0\n  Warnings:    0\n  Failures:    1\n  Trace/Debug: 0/1\n\nIssues Found (first 2):\n  1. build failed\n  2. panic at the disco\n";
    assert_eq!(text, expected);
}

#[test]
fn local_report_without_issues() {
    let text = summarize_locally("all good\ntrace: fine");
    assert!(text.ends_with("\nNo errors or failures detected.\n"));
    assert!(text.contains("  Trace/Debug: 1/0\n"));
}

#[test]
fn at_most_twenty_issue_lines_listed() {
    let input: String = (0..30).map(|i| format!("error {}\n", i)).collect();
    let s = local_summary(&input);
    assert_eq!(s.errors, 30);
    assert_eq!(s.issues.len(), 20);
    assert_eq!(s.issues[19], "error 19");
}

#[test]
fn long_issue_line_is_cut_at_117_bytes() {
    let line = format!("ERROR {}", "x".repeat(200));
    let text = summarize_locally(&line);
    let expected_entry = format!("  1. {}...\n", &line[..117]);
    assert!(text.ends_with(&expected_entry));
}

#[test]
fn api_excerpt_truncates_past_8000_bytes() {
    let short = "a".repeat(8000);
    assert_eq!(truncate_for_api(&short), short);
    let long = "b".repeat(8005);
    let cut = truncate_for_api(&long);
    assert_eq!(cut, format!("{}... [truncated from 8005 chars]", "b".repeat(8000)));
}

#[test]
fn summary_route_prefers_openai_then_anthropic() {
    assert!(matches!(summary_route(Some("k1".into()), Some("k2".into())), SummaryRoute::OpenAi(k) if k == "k1"));
    assert!(matches!(summary_route(None, Some("k2".into())), SummaryRoute::Anthropic(k) if k == "k2"));
    assert!(matches!(summary_route(None, None), SummaryRoute::Local));
}

#[test]
fn blank_log_detection() {
    assert!(log_is_blank(""));
    assert!(log_is_blank("  \n\t\r\n"));
    assert!(log_is_blank("\u{a0}\u{2003}"));
    assert!(!log_is_blank("  x "));
}

#[test]
fn cut_inside_a_character_is_refused() {
    let line = format!("ERROR {}é{}", "a".repeat(110), "b".repeat(20));
    assert!(!line.is_char_boundary(117));
    assert!(try_summarize_locally(&line).is_none());
    let fine = format!("ERROR {}é{}", "a".repeat(109), "b".repeat(20));
    assert_eq!(try_summarize_locally(&fine), Some(summarize_locally(&fine)));
}

#[test]
fn report_stops_before_an_uncuttable_line() {
    let bad = format!("ERROR {}é{}", "a".repeat(110), "b".repeat(20));
    let input = format!("fail one\n{}\npanic two\n", bad);
    let (text, complete) = render_local_summary(&local_summary(&input));
    assert!(!complete);
    assert!(text.ends_with("Issues Found (first 3):\n  1. fail one\n"));
    let (full, done) = render_local_summary(&local_summary("fail one\n"));
    assert!(done);
    assert_eq!(full, summarize_locally("fail one\n"));
}
