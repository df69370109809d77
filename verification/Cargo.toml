[package]
name = "agent_mouth"
version = "0.5.6"
edition = "2021"
publish = false

[dependencies]
tree-sitter = "0.24"
tree-sitter-bash = "0.23"
hmac = "0.12"
sha2 = "0.10"
hex = "0.4"
serde_json = "1"
urlencoding = "2"
serde = { version = "1", features = ["derive"] }
anyhow = "1"
clap = { version = "4", features = ["derive"] }
tokio = { version = "1", features = ["full"] }
axum = "0.7"
reqwest = { version = "0.12", default-features = false, features = ["json", "blocking", "rustls-tls"] }
chrono = "0.4"
rmcp = { version = "0.1", features = ["server", "transport-io"] }
schemars = "0.8"
tracing = "0.1"
tracing-subscriber = { version = "0.3", features = ["env-filter"] }
toml = "0.8"
