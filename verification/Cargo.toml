[package]
name = "tcp_chatroom"
version = "0.1.0"
edition = "2021"
publish = false

[dependencies]
serde_json = "1"
tokio = { version = "1", features = ["full"] }
tui = "0.19"
crossterm = "0.25"
chrono = "0.4"
once_cell = "1"
async-oncecell = "*"
