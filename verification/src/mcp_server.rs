//! The organ's MCP tool server: its state and the decisions of its tools.
use vstd::prelude::*;
use vstd::string::StringExecFns;
use crate::config::Config;

verus! {

/// The MCP server of the organ, holding its configuration.
#[derive(Clone)]
pub struct MouthMcp {
    config: Config,
}

/// A human-approval request that is ready to be posted to a webhook.
pub struct ApprovalRequest {
    pub webhook_url: String,
    pub message: String,
}

/// The text posted to ask for approval of an action.
pub open spec fn approval_message(action: Seq<char>, message: Seq<char>) -> Seq<char> {
    "[APPROVAL REQUIRED] Action: "@ + action + "\n\nMessage: "@ + message
}

/// The error given when neither the call nor the configuration names a
/// webhook.
pub open spec fn missing_webhook_error() -> Seq<char> {
    "No webhook URL configured. Set notifications.default_webhook in config or pass webhook_url parameter."@
}

impl MouthMcp {
    /// The configuration the server was built with.
    pub closed spec fn config(&self) -> Config {
        self.config
    }

    pub fn new(config: Config) -> (r: Self)
        ensures
            r.config() == config,
    {
        Self { config }
    }

    /// The webhook an approval request goes to: the one given with the call,
    /// else the configured default.
    pub open spec fn approval_target(&self, webhook_url: Option<Seq<char>>) -> Seq<char> {
        match webhook_url {
            Some(u) => u,
            None => self.config().notifications.default_webhook@,
        }
    }

    /// Prepares the `mouth_request_approval` tool call: picks the webhook
    /// (the one given, else the configured default), refuses an empty one,
    /// and words the approval message.
    pub fn approval_request(&self, message: &str, action: &str, webhook_url: Option<String>) -> (r:
        Result<ApprovalRequest, String>)
        ensures
            ({
                let target = self.approval_target(
                    match webhook_url {
                        Some(u) => Some(u@),
                        None => None,
                    },
                );
                match r {
                    Ok(req) => target.len() > 0 && req.webhook_url@ == target && req.message@
                        == approval_message(action@, message@),
                    Err(e) => target.len() == 0 && e@ == missing_webhook_error(),
                }
            }),
    {
        let url = match webhook_url {
            Some(u) => u,
            None => self.config.notifications.default_webhook.clone(),
        };
        if url.as_str().is_empty() {
            return Err(
                String::from_str(
                    "No webhook URL configured. Set notifications.default_webhook in config or pass webhook_url parameter.",
                ),
            );
        }
        let mut text = String::from_str("[APPROVAL REQUIRED] Action: ");
        text.append(action);
        text.append("\n\nMessage: ");
        text.append(message);
        Ok(ApprovalRequest { webhook_url: url, message: text })
    }
}

} // verus!
