use agent_mouth::config::Config;
use agent_mouth::mcp_server::MouthMcp;
use agent_mouth::notify::WebhookResult;

#[test]
fn default_config_values() {
    let c = Config::default();
    assert_eq!(c.server.port, 3104);
    assert_eq!(c.spine.url, "http://localhost:3100");
    assert_eq!(c.logging.level, "info");
    assert!(c.notifications.default_webhook.is_empty());
    assert!(c.slack.signing_secret.is_empty());
}

#[test]
fn webhook_result_success_is_2xx() {
    let ok = WebhookResult::from_status("https://h", 204);
    assert!(ok.success);
    assert_eq!(ok.url, "https://h");
    assert_eq!(ok.status, 204);
    assert!(!WebhookResult::from_status("https://h", 404).success);
    assert!(!WebhookResult::from_status("https://h", 199).success);
    assert!(!WebhookResult::from_status("https://h", 300).success);
}

#[test]
fn approval_request_needs_a_webhook() {
    let mcp = MouthMcp::new(Config::default());
    let err = mcp.approval_request("deploy now", "deploy", None).err().unwrap();
    assert_eq!(err, "No webhook URL configured. Set notifications.default_webhook in config or pass webhook_url parameter.");
    let req = mcp.approval_request("deploy now", "deploy", Some("https://hook".into())).ok().unwrap();
    assert_eq!(req.webhook_url, "https://hook");
    assert_eq!(req.message, "[APPROVAL REQUIRED] Action: deploy\n\nMessage: deploy now");
}

#[test]
fn approval_request_uses_configured_default() {
    let mut c = Config::default();
    c.notifications.default_webhook = "https://default".into();
    let mcp = MouthMcp::new(c);
    let req = mcp.approval_request("m", "a", None).ok().unwrap();
    assert_eq!(req.webhook_url, "https://default");
}
