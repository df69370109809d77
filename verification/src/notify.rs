//! What a webhook delivery reports.
use vstd::prelude::*;
use vstd::string::StringExecFns;

verus! {

/// The outcome of posting a notification to a webhook.
#[derive(Debug, Clone)]
pub struct WebhookResult {
    pub url: String,
    pub status: u16,
    pub success: bool,
}

impl WebhookResult {
    /// The result for a delivery to `url` answered with HTTP `status`; a
    /// delivery succeeded when the status is in the 2xx range.
    pub fn from_status(url: &str, status: u16) -> (r: WebhookResult)
        ensures
            r.url@ == url@,
            r.status == status,
            r.success == (200 <= status < 300),
    {
        WebhookResult { url: String::from_str(url), status, success: 200 <= status && status < 300 }
    }
}

} // verus!
