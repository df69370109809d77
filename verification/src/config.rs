//! The daemon's configuration and its defaults.
use vstd::prelude::*;
use vstd::string::StringExecFns;

verus! {

/// Section `[mouth]` of the shared configuration file.
#[derive(Debug, Clone)]
pub struct Config {
    pub server: ServerConfig,
    pub notifications: NotificationConfig,
    pub slack: SlackConfig,
    pub spine: SpineConfig,
    pub logging: LoggingConfig,
}

#[derive(Debug, Clone)]
pub struct ServerConfig {
    pub port: u16,
}

#[derive(Debug, Clone)]
pub struct NotificationConfig {
    pub default_webhook: String,
}

#[derive(Debug, Clone)]
pub struct SlackConfig {
    /// Slack signing secret for interactive webhook verification.
    pub signing_secret: String,
    /// Optional default channel id for approval responses.
    pub approval_channel: String,
}

#[derive(Debug, Clone)]
pub struct SpineConfig {
    pub url: String,
}

#[derive(Debug, Clone)]
pub struct LoggingConfig {
    pub level: String,
}

impl Default for Config {
    /// Port 3104, no default webhook, no Slack secret or channel, the spine
    /// at `http://localhost:3100`, log level `info`.
    fn default() -> (r: Self)
        ensures
            r.server.port == 3104,
            r.notifications.default_webhook@ == Seq::<char>::empty(),
            r.slack.signing_secret@ == Seq::<char>::empty(),
            r.slack.approval_channel@ == Seq::<char>::empty(),
            r.spine.url@ == "http://localhost:3100"@,
            r.logging.level@ == "info"@,
    {
        Config {
            server: ServerConfig { port: 3104 },
            notifications: NotificationConfig { default_webhook: String::new() },
            slack: SlackConfig { signing_secret: String::new(), approval_channel: String::new() },
            spine: SpineConfig { url: String::from_str("http://localhost:3100") },
            logging: LoggingConfig { level: String::from_str("info") },
        }
    }
}

} // verus!
