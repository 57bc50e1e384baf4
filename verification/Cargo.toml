[package]
name = "statsai"
version = "0.1.0"
edition = "2021"
publish = false

[dependencies]
anyhow = "1"
base64 = "0.22"
chrono = "0.4"
clap = { version = "4", features = ["derive"] }
flate2 = "1"
getrandom = "0.2"
hex = "0.4"
keyring = { version = "3", default-features = false }
percent-encoding = "2"
schemars = { version = "0.8", features = ["chrono"] }
serde = { version = "1", features = ["derive"] }
serde_json = "1"
sha2 = "0.10"
thiserror = "1"
tiny_http = "0.12"
ureq = { version = "2", features = ["json"] }
