[package]
name = "sabi"
version = "0.1.0"
edition = "2021"
publish = false

[dependencies]
rand = "0.4"
calx-ecs = "*"
uuid = { version = "1", features = ["v4"] }
toml = "*"
serde = { version = "1", features = ["derive"] }
chrono = "0.4"
slog = "1"
slog-stream = "1"
noise = "*"
euclid = "*"
tcod = "*"
rustbox = "*"
