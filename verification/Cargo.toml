[package]
name = "opencode_info"
version = "0.1.0"
edition = "2021"
publish = false

[dependencies]
png = "*"
base64 = "*"
serde = { version = "*", features = ["derive"] }
tokio = { version = "*", features = ["macros", "rt-multi-thread", "time"] }
dashmap = "*"
openaction = "*"
reqwest = { version = "*", default-features = false, features = ["json", "rustls-tls"] }
