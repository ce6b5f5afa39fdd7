[package]
name = "chessland_puzzle_generator"
version = "0.1.0"
edition = "2021"
publish = false

[dependencies]
shakmaty = "*"
rand = "*"
serde = { version = "*", features = ["derive"] }
serde_json = "*"
axum = "*"
tokio = { version = "*", features = ["full"] }
tracing = "*"
tracing-subscriber = "*"
dotenvy = "*"
