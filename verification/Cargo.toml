[package]
name = "rufuf"
version = "0.1.0"
edition = "2021"
publish = false

[dependencies]
anyhow = "=1.0.104"
crossterm = { version = "=0.28.1", features = ["event-stream"] }
easy-hex = "=1.0.0"
futures = "=0.3.34"
image = { version = "=0.25.10", default-features = false, features = ["png", "jpeg"] }
mlua = { version = "=0.10.5", features = ["lua54", "vendored"] }
ratatui = "=0.28.1"
ratatui-image = "=2.0.1"
tokio = { version = "=1.54.1", features = ["full"] }
