//! Communication safety layer: bash command approval, Slack request
//! signatures, webhook bookkeeping and local log summaries.
pub mod text;
pub mod syntax;
pub mod approval;
pub mod config;
pub mod notify;
pub mod serve;
pub mod mcp_server;
pub mod summarize;
