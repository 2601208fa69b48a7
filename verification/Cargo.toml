[package]
name = "chat_turn"
version = "0.1.0"
edition = "2021"
publish = false

[dependencies]
anyhow = "1"
crossterm = "*"
dotenvy = "*"
futures = "0.3"
ratatui = "*"
reqwest = { version = "*", default-features = false, features = ["json", "stream"] }
rmcp = { version = "*", features = ["client", "server", "macros", "transport-child-process", "transport-io"] }
serde = { version = "1", features = ["derive"] }
serde_json = "1"
shlex = "1"
tokio = { version = "1", features = ["full"] }
tui-markdown = { version = "*", default-features = false }
