[package]
name = "lan_manager"
version = "0.1.0"
edition = "2021"
publish = false

[dependencies]
argon2 = { version = "=0.5.3", features = ["std"] }
hmac = "=0.12.1"
sha2 = "=0.10.9"
hex = "=0.4.3"
uuid = { version = "=1.27.0", features = ["v4"] }
serde = { version = "*", features = ["derive"] }
serde_json = "*"
chrono = "*"
tokio = { version = "*", features = ["rt-multi-thread", "macros", "net", "time", "sync"] }
axum = { version = "=0.8.9", features = ["ws"] }
tower-http = { version = "*", features = ["cors"] }
mdns-sd = "=0.21.4"
if-addrs = "*"
hostname = "*"
dirs = "*"
log = "*"
env_logger = "*"
futures = "*"
encoding_rs = "*"
reqwest = { version = "=0.13.5", default-features = false, features = ["json"] }
