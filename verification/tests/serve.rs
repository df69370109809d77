use agent_mouth::approval::slack_signature;
use agent_mouth::config::Config;
use agent_mouth::serve::{extract_slack_command, first_line_of, slack_approval_outcome, webhook_target};

#[test]
fn json_text_field_is_the_command() {
    assert_eq!(extract_slack_command("{\"text\":\"ls -la\",\"actions\":[{\"value\":\"rm\"}]}"), "ls -la");
}

#[test]
fn first_action_value_when_no_text() {
    assert_eq!(extract_slack_command("{\"actions\":[{\"value\":\"cargo build\"},{\"value\":\"x\"}]}"), "cargo build");
}

#[test]
fn message_text_when_no_text_or_action() {
    assert_eq!(extract_slack_command("{\"message\":{\"text\":\"git status\"}}"), "git status");
}

#[test]
fn payload_form_body_is_decoded() {
    assert_eq!(
        extract_slack_command("payload=%7B%22text%22%3A%22echo%20hi%22%7D"),
        "echo hi"
    );
}

#[test]
fn plain_body_gives_first_line() {
    assert_eq!(extract_slack_command("echo one\r\necho two"), "echo one");
    assert_eq!(extract_slack_command("just text"), "just text");
    assert_eq!(extract_slack_command(""), "");
}

#[test]
fn first_line_keeps_lone_carriage_return() {
    assert_eq!(first_line_of("abc\r"), "abc\r");
    assert_eq!(first_line_of("\nrest"), "");
}

#[test]
fn webhook_target_prefers_request() {
    let mut config = Config::default();
    config.notifications.default_webhook = "https://hooks.example/default".into();
    assert_eq!(webhook_target(Some("https://x".into()), &config), "https://x");
    assert_eq!(webhook_target(None, &config), "https://hooks.example/default");
}

#[test]
fn slack_approval_without_secret_validates_command() {
    let outcome = slack_approval_outcome("", "", "", b"{\"text\":\"echo ok\"}").unwrap();
    assert!(outcome.report.approved);
    assert_eq!(outcome.subject, "mouth.approval.validated");
    assert_eq!(outcome.text, "✅ Approved: command passed AST validation");
}

#[test]
fn slack_approval_rejects_destructive_command() {
    let outcome = slack_approval_outcome("", "", "", b"rm -rf /").unwrap();
    assert!(!outcome.report.approved);
    assert_eq!(outcome.subject, "mouth.approval.rejected");
    assert_eq!(outcome.text, "❌ Rejected: rejected: destructive or dynamic execution pattern detected");
}

#[test]
fn slack_approval_checks_signature_when_secret_set() {
    let body = b"{\"text\":\"ls\"}";
    assert!(slack_approval_outcome("s3cret", "100", "v0=bad", body).is_none());
    let sig = slack_signature("s3cret", "100", body);
    let outcome = slack_approval_outcome("s3cret", "100", &sig, body).unwrap();
    assert!(outcome.report.approved);
}

#[test]
fn invalid_utf8_body_is_read_lossily() {
    let outcome = slack_approval_outcome("", "", "", b"echo \xff").unwrap();
    assert_eq!(outcome.report.command, "echo \u{FFFD}");
    assert!(outcome.report.approved);
}

#[test]
fn payload_decoding_keeps_plus_and_bad_escapes() {
    assert_eq!(extract_slack_command("payload=a%2Bb+c"), "a+b+c");
    assert_eq!(extract_slack_command("payload=%zz%4"), "%zz%4");
    assert_eq!(extract_slack_command("payload=50%25%2x"), "50%%2x");
}

#[test]
fn payload_with_invalid_utf8_falls_back_to_body() {
    assert_eq!(extract_slack_command("payload=%FF"), "payload=%FF");
}
