[package]
name = "tic_tac_toe_server"
version = "0.1.0"
edition = "2021"
publish = false

[dependencies]
tokio = { version = "*", features = ["sync", "rt-multi-thread", "macros", "net"] }
axum = { version = "*", features = ["ws"] }
futures-util = "*"

[dev-dependencies]
serde_json = "*"
