[package]
name = "lazypaw"
version = "0.1.0"
edition = "2021"
publish = false

[dependencies]
claw = "=0.1.0-alpha2"
csv = "*"
serde = { version = "*", features = ["derive"] }
serde_json = "*"
jsonwebtoken = "*"
axum = { version = "*", features = ["ws"] }
tokio = { version = "*", features = ["full"] }
clap = { version = "*", features = ["derive", "env"] }
toml = "*"
uuid = { version = "*", features = ["v4"] }
base64 = "*"
chrono = "*"
futures-util = "*"
reqwest = { version = "*", default-features = false, features = ["json"] }
arrow = "*"
arrow-ipc = "*"
arrow-json = "*"
