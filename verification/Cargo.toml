[package]
name = "lifeplanner"
version = "0.1.0"
edition = "2021"
publish = false

[dependencies]
chrono = "0.4"
regex = "1"
ical = "*"
uuid = { version = "1", features = ["v4"] }
pdf-extract = "*"
serde = { version = "1", features = ["derive"] }
serde_json = "1"
clap = { version = "4", features = ["derive"] }
keyring = "*"
thiserror = "*"
tokio = { version = "1", features = ["rt-multi-thread", "macros"] }
reqwest = { version = "*", default-features = false, features = ["json", "rustls-tls"] }
sqlx = { version = "*", features = ["sqlite", "runtime-tokio"] }
dirs = "*"
